use vstd::prelude::*;
use vstd::string::*;

use crate::text::{digits_u64, parse_digits_u64, str_eq};

verus! {

/// A JSON value as the library reads and writes it.
#[derive(Debug, PartialEq, Eq)]
pub enum Json {
    Null,
    Bool(bool),
    /// A number, held as its JSON text.
    Number(String),
    Str(String),
    Array(Vec<Json>),
    /// Members in document order.
    Object(Vec<(String, Json)>),
}

/// The mathematical model of a JSON value.
pub enum JsonV {
    Null,
    Bool(bool),
    Number(Seq<char>),
    Str(Seq<char>),
    Array(Seq<JsonV>),
    Object(Seq<(Seq<char>, JsonV)>),
}

pub open spec fn json_model(j: Json) -> JsonV
    decreases j,
{
    match j {
        Json::Null => JsonV::Null,
        Json::Bool(b) => JsonV::Bool(b),
        Json::Number(t) => JsonV::Number(t@),
        Json::Str(s) => JsonV::Str(s@),
        Json::Array(v) => JsonV::Array(
            Seq::new(
                v@.len(),
                |i: int|
                    if 0 <= i < v@.len() {
                        json_model(v@[i])
                    } else {
                        JsonV::Null
                    },
            ),
        ),
        Json::Object(m) => JsonV::Object(
            Seq::new(
                m@.len(),
                |i: int|
                    if 0 <= i < m@.len() {
                        (m@[i].0@, json_model(m@[i].1))
                    } else {
                        (Seq::empty(), JsonV::Null)
                    },
            ),
        ),
    }
}

impl View for Json {
    type V = JsonV;

    open spec fn view(&self) -> JsonV {
        json_model(*self)
    }
}

/// The models of a sequence of values.
pub open spec fn views(s: Seq<Json>) -> Seq<JsonV> {
    s.map_values(|j: Json| j@)
}

/// The models of a sequence of object members.
pub open spec fn members_view(m: Seq<(String, Json)>) -> Seq<(Seq<char>, JsonV)> {
    m.map_values(|p: (String, Json)| (p.0@, p.1@))
}

pub proof fn lemma_array_view(v: Vec<Json>)
    ensures
        Json::Array(v)@ == JsonV::Array(views(v@)),
{
    let a = Json::Array(v)@;
    assert(a->Array_0 =~= views(v@));
}

pub proof fn lemma_object_view(m: Vec<(String, Json)>)
    ensures
        Json::Object(m)@ == JsonV::Object(members_view(m@)),
{
    let a = Json::Object(m)@;
    assert(a->Object_0 =~= members_view(m@));
}

/// The value of the last member named `key`, if any.
pub open spec fn last_member(m: Seq<(Seq<char>, JsonV)>, key: Seq<char>) -> Option<JsonV>
    decreases m.len(),
{
    if m.len() == 0 {
        None
    } else if m.last().0 == key {
        Some(m.last().1)
    } else {
        last_member(m.drop_last(), key)
    }
}

impl JsonV {
    /// The member `key` of an object (the last one of that name), if any.
    pub open spec fn member(self, key: Seq<char>) -> Option<JsonV> {
        match self {
            JsonV::Object(m) => last_member(m, key),
            _ => None,
        }
    }

    /// `value[key]`: the member `key` of an object, or null.
    pub open spec fn get(self, key: Seq<char>) -> JsonV {
        match self.member(key) {
            Some(v) => v,
            None => JsonV::Null,
        }
    }

    /// `value[i]`: the element `i` of an array, or null.
    pub open spec fn at(self, i: int) -> JsonV {
        match self {
            JsonV::Array(a) => if 0 <= i < a.len() {
                a[i]
            } else {
                JsonV::Null
            },
            _ => JsonV::Null,
        }
    }

    /// The text of a string value.
    pub open spec fn as_str(self) -> Option<Seq<char>> {
        match self {
            JsonV::Str(s) => Some(s),
            _ => None,
        }
    }

    /// The elements of an array value.
    pub open spec fn as_array(self) -> Option<Seq<JsonV>> {
        match self {
            JsonV::Array(a) => Some(a),
            _ => None,
        }
    }

    /// A number that is a non-negative integer fitting in a `u64`.
    pub open spec fn as_u64(self) -> Option<u64> {
        match self {
            JsonV::Number(t) => digits_u64(t),
            _ => None,
        }
    }

    /// The elements of an array value, or none.
    pub open spec fn array_or_empty(self) -> Seq<JsonV> {
        match self {
            JsonV::Array(a) => a,
            _ => Seq::empty(),
        }
    }
}

impl Json {
    /// The member `key` of an object (the last one of that name), if any.
    pub fn member(&self, key: &str) -> (r: Option<&Json>)
        ensures
            r matches Some(v) ==> self@.member(key@) == Some(v@),
            r is None ==> self@.member(key@) is None,
    {
        match self {
            Json::Object(m) => {
                proof {
                    lemma_object_view(*m);
                }
                let ghost mv = members_view(m@);
                let mut i = m.len();
                assert(mv.subrange(0, i as int) =~= mv);
                while i > 0
                    invariant
                        i <= m@.len(),
                        mv == members_view(m@),
                        self@ == JsonV::Object(mv),
                        last_member(mv, key@) == last_member(mv.subrange(0, i as int), key@),
                    decreases i,
                {
                    let ghost pre = mv.subrange(0, i as int);
                    assert(pre.last() == mv[i - 1]);
                    assert(pre.drop_last() =~= mv.subrange(0, i - 1));
                    if str_eq(m[i - 1].0.as_str(), key) {
                        return Some(&m[i - 1].1);
                    }
                    i = i - 1;
                }
                None
            },
            _ => None,
        }
    }

    /// `value[key]`: the member `key` of an object; `None` stands for null.
    pub fn get(&self, key: &str) -> (r: Option<&Json>)
        ensures
            r matches Some(v) ==> self@.get(key@) == v@,
            r is None ==> self@.get(key@) == JsonV::Null,
    {
        self.member(key)
    }

    /// The text of a string value.
    pub fn as_str(&self) -> (r: Option<&String>)
        ensures
            r matches Some(s) ==> self@.as_str() == Some(s@),
            r is None ==> self@.as_str() is None,
    {
        match self {
            Json::Str(s) => Some(s),
            _ => None,
        }
    }

    /// The elements of an array value.
    pub fn as_array(&self) -> (r: Option<&Vec<Json>>)
        ensures
            r matches Some(v) ==> self@.as_array() == Some(views(v@)),
            r is None ==> self@.as_array() is None,
    {
        match self {
            Json::Array(v) => {
                proof {
                    lemma_array_view(*v);
                }
                Some(v)
            },
            _ => None,
        }
    }

    /// A number that is a non-negative integer fitting in a `u64`.
    pub fn as_u64(&self) -> (r: Option<u64>)
        ensures
            r == self@.as_u64(),
    {
        match self {
            Json::Number(t) => parse_digits_u64(t.as_str()),
            _ => None,
        }
    }

    /// A deep copy.
    pub fn duplicate(&self) -> (r: Json)
        ensures
            r@ == self@,
        decreases self,
    {
        match self {
            Json::Null => Json::Null,
            Json::Bool(b) => Json::Bool(*b),
            Json::Number(t) => Json::Number(t.clone()),
            Json::Str(s) => Json::Str(s.clone()),
            Json::Array(v) => {
                let mut out: Vec<Json> = Vec::new();
                let mut i: usize = 0;
                while i < v.len()
                    invariant
                        i <= v@.len(),
                        out@.len() == i,
                        *self == Json::Array(*v),
                        forall|k: int| 0 <= k < i ==> (#[trigger] out@[k])@ == v@[k]@,
                    decreases v@.len() - i,
                {
                    proof {
                        assert(decreases_to!(*self => (*self)->Array_0));
                        assert(decreases_to!(*v => v[i as int]));
                    }
                    let e = v[i].duplicate();
                    out.push(e);
                    i = i + 1;
                }
                proof {
                    lemma_array_view(*v);
                    lemma_array_view(out);
                    assert(views(out@) =~= views(v@));
                }
                Json::Array(out)
            },
            Json::Object(m) => {
                let mut out: Vec<(String, Json)> = Vec::new();
                let mut i: usize = 0;
                while i < m.len()
                    invariant
                        i <= m@.len(),
                        out@.len() == i,
                        *self == Json::Object(*m),
                        forall|k: int| 0 <= k < i ==> (#[trigger] out@[k]).0@ == m@[k].0@ && out@[k].1@ == m@[k].1@,
                    decreases m@.len() - i,
                {
                    proof {
                        assert(decreases_to!(*self => (*self)->Object_0));
                        assert(decreases_to!(*m => m[i as int]));
                        assert(decreases_to!(m[i as int] => m[i as int].1));
                    }
                    let e = m[i].1.duplicate();
                    out.push((m[i].0.clone(), e));
                    i = i + 1;
                }
                proof {
                    lemma_object_view(*m);
                    lemma_object_view(out);
                    assert(members_view(out@) =~= members_view(m@));
                }
                Json::Object(out)
            },
        }
    }

    /// A string value.
    pub fn from_str(s: &str) -> (r: Json)
        ensures
            r@ == JsonV::Str(s@),
    {
        Json::Str(s.to_owned())
    }

    /// An array of string values.
    pub fn from_strings(items: &[String]) -> (r: Json)
        ensures
            r@ == JsonV::Array(items@.map_values(|s: String| JsonV::Str(s@))),
    {
        let mut out: Vec<Json> = Vec::new();
        let mut i: usize = 0;
        while i < items.len()
            invariant
                i <= items@.len(),
                out@.len() == i,
                forall|k: int| 0 <= k < i ==> (#[trigger] out@[k])@ == JsonV::Str(items@[k]@),
            decreases items@.len() - i,
        {
            out.push(Json::Str(items[i].clone()));
            i = i + 1;
        }
        proof {
            lemma_array_view(out);
            assert(views(out@) =~= items@.map_values(|s: String| JsonV::Str(s@)));
        }
        Json::Array(out)
    }
}

// ---------------------------------------------------------------------
// JSON text, read and written by serde_json
// ---------------------------------------------------------------------

#[verifier::external_type_specification]
#[verifier::external_body]
pub struct ExJsonValue(serde_json::Value);

/// A `serde_json::Value` as a library value, one for one: a number keeps
/// its text (as `Number`'s `Display` writes it), an object its members in
/// the order the map holds them.
#[verifier::external_body]
fn json_of_value(v: &serde_json::Value) -> Json {
    match v {
        serde_json::Value::Null => Json::Null,
        serde_json::Value::Bool(b) => Json::Bool(*b),
        serde_json::Value::Number(n) => Json::Number(n.to_string()),
        serde_json::Value::String(s) => Json::Str(s.clone()),
        serde_json::Value::Array(a) => Json::Array(a.iter().map(json_of_value).collect()),
        serde_json::Value::Object(m) => Json::Object(m.iter().map(|(k, x)| (k.clone(), json_of_value(x))).collect()),
    }
}

/// A library value as a `serde_json::Value`, one for one: a number's text is
/// read back by `serde_json::Number`'s `FromStr`, and a text that it refuses
/// becomes a string value; members go into the map in order (a later member
/// of the same name replaces an earlier one).
#[verifier::external_body]
fn value_of_json(j: &Json) -> serde_json::Value {
    match j {
        Json::Null => serde_json::Value::Null,
        Json::Bool(b) => serde_json::Value::Bool(*b),
        Json::Number(t) => match t.parse::<serde_json::Number>() {
            Ok(n) => serde_json::Value::Number(n),
            Err(_) => serde_json::Value::String(t.clone()),
        },
        Json::Str(s) => serde_json::Value::String(s.clone()),
        Json::Array(a) => serde_json::Value::Array(a.iter().map(value_of_json).collect()),
        Json::Object(m) => serde_json::Value::Object(m.iter().map(|(k, x)| (k.clone(), value_of_json(x))).collect()),
    }
}

/// The value serde_json reads from a JSON text, if the text is one.
pub uninterp spec fn json_of_text(s: Seq<char>) -> Option<JsonV>;

/// Calls `serde_json::from_str::<serde_json::Value>` and converts the value
/// it reads. Claimed: the result is `json_of_text` of the text (a function
/// of the text alone); `None` exactly when serde_json refuses the text.
#[verifier::external_body]
pub(crate) fn parse_json_text(text: &str) -> (r: Option<Json>)
    ensures
        match r {
            Some(j) => json_of_text(text@) == Some(j@),
            None => json_of_text(text@) is None,
        },
{
    match serde_json::from_str::<serde_json::Value>(text) {
        Ok(v) => Some(json_of_value(&v)),
        Err(_) => None,
    }
}

/// The value a JSON text holds, as serde_json reads it; `None` when the
/// text is not JSON.
pub fn read_json(text: &str) -> (r: Option<Json>)
    ensures
        match r {
            Some(j) => json_of_text(text@) == Some(j@),
            None => json_of_text(text@) is None,
        },
{
    parse_json_text(text)
}

/// The compact text serde_json's `Display` writes for a value.
pub uninterp spec fn json_display(j: JsonV) -> Seq<char>;

/// Converts the value and calls `serde_json::Value`'s `Display` (through
/// `to_string`). Claimed: the result is `json_display` of the value (a
/// function of the value alone).
#[verifier::external_body]
pub(crate) fn display_text(j: &Json) -> (r: String)
    ensures
        r@ == json_display(j@),
{
    value_of_json(j).to_string()
}

/// The indented text serde_json's `to_string_pretty` writes for a value.
pub uninterp spec fn json_pretty(j: JsonV) -> Seq<char>;

/// Converts the value and calls `serde_json::to_string_pretty`. Claimed: the
/// result is `json_pretty` of the value (a function of the value alone).
/// serde_json fails only for a map whose keys are not strings, which a
/// `serde_json::Value` never holds; that branch gives the empty text.
#[verifier::external_body]
pub(crate) fn pretty_text(j: &Json) -> (r: String)
    ensures
        r@ == json_pretty(j@),
{
    match serde_json::to_string_pretty(&value_of_json(j)) {
        Ok(s) => s,
        Err(_) => String::new(),
    }
}

/// The compact JSON text of a value, as serde_json shows it.
pub fn show_json(j: &Json) -> (r: String)
    ensures
        r@ == json_display(j@),
{
    display_text(j)
}

/// The indented JSON text of a value, as serde_json writes it.
pub fn show_json_pretty(j: &Json) -> (r: String)
    ensures
        r@ == json_pretty(j@),
{
    pretty_text(j)
}

} // verus!
