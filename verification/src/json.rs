//! JSON values.

use vstd::prelude::*;
use crate::number::Double;
use crate::text;

verus! {

/// A JSON value as plain data.
///
/// A number is kept as what can be read from it: its value as an `i64`, where
/// it has one, and the double nearest to it.
#[derive(Debug, Default)]
pub enum Json {
    #[default]
    Null,
    Bool(bool),
    Number { integer: Option<i64>, double: Option<Double> },
    Text(String),
    Array(Vec<Json>),
    Object(Vec<(String, Json)>),
}

/// What a JSON value holds.
pub enum JsonView {
    Null,
    Bool(bool),
    Number { integer: Option<i64>, double: Option<Double> },
    Text(Seq<char>),
    Array(Seq<JsonView>),
    Object(Seq<(Seq<char>, JsonView)>),
}

/// What `value` holds.
pub open spec fn json_view(value: Json) -> JsonView
    decreases value,
{
    match value {
        Json::Null => JsonView::Null,
        Json::Bool(b) => JsonView::Bool(b),
        Json::Number { integer, double } => JsonView::Number { integer, double },
        Json::Text(s) => JsonView::Text(s@),
        Json::Array(a) => JsonView::Array(
            Seq::new(
                a@.len(),
                |i: int|
                    if 0 <= i < a@.len() {
                        json_view(a@[i])
                    } else {
                        JsonView::Null
                    },
            ),
        ),
        Json::Object(m) => JsonView::Object(
            Seq::new(
                m@.len(),
                |i: int|
                    if 0 <= i < m@.len() {
                        (m@[i].0@, json_view(m@[i].1))
                    } else {
                        (Seq::empty(), JsonView::Null)
                    },
            ),
        ),
    }
}

impl View for Json {
    type V = JsonView;

    open spec fn view(&self) -> JsonView {
        json_view(*self)
    }
}

/// The value of the first field from index `from` on whose name is `key`.
pub open spec fn field_from(
    fields: Seq<(Seq<char>, JsonView)>,
    key: Seq<char>,
    from: int,
) -> Option<JsonView>
    decreases fields.len() - from,
{
    if from < 0 || from >= fields.len() {
        None
    } else if fields[from].0 == key {
        Some(fields[from].1)
    } else {
        field_from(fields, key, from + 1)
    }
}

impl JsonView {
    /// The field `key` of an object.
    pub open spec fn get(self, key: Seq<char>) -> Option<JsonView> {
        match self {
            JsonView::Object(fields) => field_from(fields, key, 0),
            _ => None,
        }
    }

    pub open spec fn as_bool(self) -> Option<bool> {
        match self {
            JsonView::Bool(b) => Some(b),
            _ => None,
        }
    }

    pub open spec fn as_i64(self) -> Option<i64> {
        match self {
            JsonView::Number { integer, .. } => integer,
            _ => None,
        }
    }

    pub open spec fn as_double(self) -> Option<Double> {
        match self {
            JsonView::Number { double, .. } => double,
            _ => None,
        }
    }

    pub open spec fn as_text(self) -> Option<Seq<char>> {
        match self {
            JsonView::Text(s) => Some(s),
            _ => None,
        }
    }

    pub open spec fn as_array(self) -> Option<Seq<JsonView>> {
        match self {
            JsonView::Array(a) => Some(a),
            _ => None,
        }
    }

    /// The field `key`, where it is a truth value.
    pub open spec fn bool_at(self, key: Seq<char>) -> Option<bool> {
        match self.get(key) {
            Some(v) => v.as_bool(),
            None => None,
        }
    }

    /// The field `key`, where it is an integer.
    pub open spec fn i64_at(self, key: Seq<char>) -> Option<i64> {
        match self.get(key) {
            Some(v) => v.as_i64(),
            None => None,
        }
    }

    /// The field `key`, where it is a text.
    pub open spec fn text_at(self, key: Seq<char>) -> Option<Seq<char>> {
        match self.get(key) {
            Some(v) => v.as_text(),
            None => None,
        }
    }

    /// The field `key`, or the empty text where it is no text.
    pub open spec fn text_or_empty(self, key: Seq<char>) -> Seq<char> {
        match self.text_at(key) {
            Some(s) => s,
            None => Seq::empty(),
        }
    }

    /// The field `key`, or zero where it is no integer.
    pub open spec fn i64_or_zero(self, key: Seq<char>) -> i64 {
        match self.i64_at(key) {
            Some(n) => n,
            None => 0,
        }
    }

    /// The elements of the field `key`, none where it is no array.
    pub open spec fn elements_at(self, key: Seq<char>) -> Seq<JsonView> {
        match self.get(key) {
            Some(JsonView::Array(a)) => a,
            _ => Seq::empty(),
        }
    }
}

/// What each value of `v` holds.
pub open spec fn views(v: Seq<Json>) -> Seq<JsonView> {
    v.map_values(|j: Json| j@)
}

pub proof fn lemma_field_is_smaller(v: JsonView, key: Seq<char>)
    ensures
        v.get(key) matches Some(field) ==> decreases_to!(v => field),
{
    if let JsonView::Object(fields) = v {
        lemma_field_from(fields, key, 0);
        if let Some(field) = v.get(key) {
            let i = choose|i: int| 0 <= i < fields.len() && fields[i].1 == field;
            assert(decreases_to!(v => fields[i]));
            assert(decreases_to!(fields[i] => fields[i].1));
        }
    }
}

proof fn lemma_field_from(fields: Seq<(Seq<char>, JsonView)>, key: Seq<char>, from: int)
    requires
        0 <= from,
    ensures
        field_from(fields, key, from) matches Some(field) ==> exists|i: int|
            0 <= i < fields.len() && (#[trigger] fields[i]).1 == field,
    decreases fields.len() - from,
{
    if from < fields.len() && fields[from].0 != key {
        lemma_field_from(fields, key, from + 1);
    }
}

pub proof fn lemma_element_is_smaller(v: JsonView, key: Seq<char>, i: int)
    requires
        0 <= i < v.elements_at(key).len(),
    ensures
        decreases_to!(v => v.elements_at(key)[i]),
{
    lemma_field_is_smaller(v, key);
    let a = v.get(key)->0;
    assert(decreases_to!(a => a->Array_0[i]));
}

/// A copy of `value`.
fn copy_of(value: &Json) -> (r: Json)
    ensures
        r@ == value@,
    decreases value@,
{
    match value {
        Json::Null => Json::Null,
        Json::Bool(b) => Json::Bool(*b),
        Json::Number { integer, double } => Json::Number { integer: *integer, double: *double },
        Json::Text(s) => Json::Text(s.clone()),
        Json::Array(a) => {
            let mut out: Vec<Json> = Vec::new();
            let mut i: usize = 0;
            while i < a.len()
                invariant
                    i <= a@.len(),
                    *value == Json::Array(*a),
                    out@.len() == i,
                    forall|k: int| 0 <= k < i ==> (#[trigger] out@[k])@ == a@[k]@,
                decreases a@.len() - i,
            {
                assert(value@->Array_0[i as int] == a@[i as int]@);
                assert(decreases_to!(value@ => value@->Array_0[i as int]));
                out.push(copy_of(&a[i]));
                i += 1;
            }
            let r = Json::Array(out);
            assert(r@->Array_0 == value@->Array_0);
            r
        },
        Json::Object(m) => {
            let mut out: Vec<(String, Json)> = Vec::new();
            let mut i: usize = 0;
            while i < m.len()
                invariant
                    i <= m@.len(),
                    *value == Json::Object(*m),
                    out@.len() == i,
                    forall|k: int|
                        0 <= k < i ==> (#[trigger] out@[k]).0@ == m@[k].0@ && out@[k].1@
                            == m@[k].1@,
                decreases m@.len() - i,
            {
                assert(value@->Object_0[i as int] == (m@[i as int].0@, m@[i as int].1@));
                assert(decreases_to!(value@ => value@->Object_0[i as int]));
                assert(decreases_to!(value@->Object_0[i as int] => value@->Object_0[i as int].1));
                out.push((m[i].0.clone(), copy_of(&m[i].1)));
                i += 1;
            }
            let r = Json::Object(out);
            assert(r@->Object_0 == value@->Object_0);
            r
        },
    }
}

impl Clone for Json {
    fn clone(&self) -> (r: Json)
        ensures
            r@ == self@,
    {
        copy_of(self)
    }
}

impl Json {
    /// The field `key` of an object.
    pub fn get(&self, key: &str) -> (r: Option<&Json>)
        ensures
            match r {
                Some(j) => self@.get(key@) == Some(j@),
                None => self@.get(key@) is None,
            },
    {
        match self {
            Json::Object(m) => {
                let ghost fields = self@->Object_0;
                let mut i: usize = 0;
                while i < m.len()
                    invariant
                        i <= m@.len(),
                        self@ == JsonView::Object(fields),
                        fields.len() == m@.len(),
                        forall|k: int|
                            0 <= k < m@.len() ==> #[trigger] fields[k] == (m@[k].0@, m@[k].1@),
                        self@.get(key@) == field_from(fields, key@, i as int),
                    decreases m@.len() - i,
                {
                    assert(fields[i as int] == (m@[i as int].0@, m@[i as int].1@));
                    if text::same_text(m[i].0.as_str(), key) {
                        return Some(&m[i].1);
                    }
                    i += 1;
                }
                None
            },
            _ => None,
        }
    }

    /// The truth value, where this is one.
    pub fn as_bool(&self) -> (r: Option<bool>)
        ensures
            r == self@.as_bool(),
    {
        match self {
            Json::Bool(b) => Some(*b),
            _ => None,
        }
    }

    /// The number, where this is one that an `i64` holds.
    pub fn as_i64(&self) -> (r: Option<i64>)
        ensures
            r == self@.as_i64(),
    {
        match self {
            Json::Number { integer, .. } => *integer,
            _ => None,
        }
    }

    /// The number as a double, where this is a number.
    pub fn as_double(&self) -> (r: Option<Double>)
        ensures
            r == self@.as_double(),
    {
        match self {
            Json::Number { double, .. } => *double,
            _ => None,
        }
    }

    /// The text, where this is one.
    pub fn as_str(&self) -> (r: Option<&str>)
        ensures
            match r {
                Some(s) => self@.as_text() == Some(s@),
                None => self@.as_text() is None,
            },
    {
        match self {
            Json::Text(s) => Some(s.as_str()),
            _ => None,
        }
    }

    /// The elements, where this is an array.
    pub fn as_array(&self) -> (r: Option<&Vec<Json>>)
        ensures
            match r {
                Some(a) => self@.as_array() == Some(views(a@)),
                None => self@.as_array() is None,
            },
    {
        match self {
            Json::Array(a) => {
                assert(self@->Array_0 == views(a@));
                Some(a)
            },
            _ => None,
        }
    }

    /// Whether this is `null`.
    pub fn is_null(&self) -> (r: bool)
        ensures
            r == (self@ is Null),
    {
        matches!(self, Json::Null)
    }

    pub(crate) fn bool_at(&self, key: &str) -> (r: Option<bool>)
        ensures
            r == self@.bool_at(key@),
    {
        match self.get(key) {
            Some(v) => v.as_bool(),
            None => None,
        }
    }

    pub(crate) fn i64_at(&self, key: &str) -> (r: Option<i64>)
        ensures
            r == self@.i64_at(key@),
    {
        match self.get(key) {
            Some(v) => v.as_i64(),
            None => None,
        }
    }

    pub(crate) fn i64_or_zero(&self, key: &str) -> (r: i64)
        ensures
            r == self@.i64_or_zero(key@),
    {
        match self.i64_at(key) {
            Some(n) => n,
            None => 0,
        }
    }

    pub(crate) fn text_at(&self, key: &str) -> (r: Option<&str>)
        ensures
            match r {
                Some(s) => self@.text_at(key@) == Some(s@),
                None => self@.text_at(key@) is None,
            },
    {
        match self.get(key) {
            Some(v) => v.as_str(),
            None => None,
        }
    }

    pub(crate) fn text_or_empty(&self, key: &str) -> (r: String)
        ensures
            r@ == self@.text_or_empty(key@),
    {
        match self.text_at(key) {
            Some(s) => s.to_owned(),
            None => String::new(),
        }
    }

    /// Whether the field `key`, or the empty text where it is no text, is `t`.
    pub(crate) fn text_is(&self, key: &str, t: &str) -> (r: bool)
        ensures
            r == (self@.text_or_empty(key@) == t@),
    {
        text::same_text(self.text_or_empty(key).as_str(), t)
    }

    pub(crate) fn array_at(&self, key: &str) -> (r: Option<&Vec<Json>>)
        ensures
            match r {
                Some(a) => self@.elements_at(key@) == views(a@),
                None => self@.elements_at(key@) == Seq::<JsonView>::empty(),
            },
    {
        match self.get(key) {
            Some(v) => v.as_array(),
            None => None,
        }
    }
}

#[verifier::external_type_specification]
#[verifier::external_body]
pub struct ExJsonValue(serde_json::Value);

#[verifier::external_type_specification]
#[verifier::external_body]
pub struct ExJsonError(serde_json::Error);

/// What a `serde_json::Value` holds.
pub uninterp spec fn value_contents(value: serde_json::Value) -> JsonView;

/// What `serde_json::from_slice` reads from `bytes`, where they are JSON.
pub uninterp spec fn json_text(bytes: Seq<u8>) -> Option<JsonView>;

/// The outermost layer of a `serde_json::Value`, borrowed from it.
pub enum Layer<'a> {
    Null,
    Bool(bool),
    Number(Option<i64>, Option<Double>),
    Text(&'a String),
    Array(&'a Vec<serde_json::Value>),
    Object(Vec<(&'a String, &'a serde_json::Value)>),
}

/// The value whose outermost layer is `layer`.
pub open spec fn layer_view(layer: Layer<'_>) -> JsonView {
    match layer {
        Layer::Null => JsonView::Null,
        Layer::Bool(b) => JsonView::Bool(b),
        Layer::Number(integer, double) => JsonView::Number { integer, double },
        Layer::Text(s) => JsonView::Text(s@),
        Layer::Array(a) => JsonView::Array(
            Seq::new(a@.len(), |i: int| value_contents(a@[i])),
        ),
        Layer::Object(m) => JsonView::Object(
            Seq::new(m@.len(), |i: int| (m@[i].0@, value_contents(*m@[i].1))),
        ),
    }
}

/// Looks at the outermost layer of a `serde_json::Value`: which of the six
/// variants it is, and what that holds. A number is read with
/// `Number::as_i64` and `Number::as_f64`, an object field by field with
/// `Map::iter`. The contract says that the layer and the value hold the same.
#[verifier::external_body]
fn layer<'a>(value: &'a serde_json::Value) -> (r: Layer<'a>)
    ensures
        layer_view(r) == value_contents(*value),
{
    match value {
        serde_json::Value::Null => Layer::Null,
        serde_json::Value::Bool(b) => Layer::Bool(*b),
        serde_json::Value::Number(n) => Layer::Number(
            n.as_i64(),
            n.as_f64().map(|x| Double { bits: x.to_bits() }),
        ),
        serde_json::Value::String(s) => Layer::Text(s),
        serde_json::Value::Array(a) => Layer::Array(a),
        serde_json::Value::Object(m) => Layer::Object(m.iter().collect()),
    }
}

/// Parses JSON with `serde_json::from_slice` into a `serde_json::Value`. The
/// contract gives the outcome a name: whether the bytes are JSON, and what
/// they hold, depends on the bytes alone.
#[verifier::external_body]
fn read_value(bytes: &[u8]) -> (r: Result<serde_json::Value, serde_json::Error>)
    ensures
        match r {
            Ok(value) => json_text(bytes@) == Some(value_contents(value)),
            Err(_) => json_text(bytes@) is None,
        },
{
    serde_json::from_slice(bytes)
}

/// Parses a JSON array with `serde_json::from_slice` into a
/// `Vec<serde_json::Value>`. The contract says that this succeeds on those
/// bytes that hold an array, and gives its elements.
#[verifier::external_body]
fn read_values(bytes: &[u8]) -> (r: Result<Vec<serde_json::Value>, serde_json::Error>)
    ensures
        match r {
            Ok(values) => json_text(bytes@) == Some(
                JsonView::Array(Seq::new(values@.len(), |i: int| value_contents(values@[i]))),
            ),
            Err(_) => !(json_text(bytes@) matches Some(JsonView::Array(_))),
        },
{
    serde_json::from_slice(bytes)
}

/// `value` as plain data.
fn json_of(value: &serde_json::Value) -> (r: Json)
    ensures
        r@ == value_contents(*value),
    decreases value_contents(*value),
{
    let ghost whole = value_contents(*value);
    match layer(value) {
        Layer::Null => Json::Null,
        Layer::Bool(b) => Json::Bool(b),
        Layer::Number(integer, double) => Json::Number { integer, double },
        Layer::Text(s) => Json::Text(s.clone()),
        Layer::Array(a) => {
            let ghost elements = whole->Array_0;
            let mut out: Vec<Json> = Vec::new();
            let mut i: usize = 0;
            while i < a.len()
                invariant
                    i <= a@.len(),
                    whole == JsonView::Array(elements),
                    whole == value_contents(*value),
                    elements == Seq::new(a@.len(), |k: int| value_contents(a@[k])),
                    out@.len() == i,
                    forall|k: int| 0 <= k < i ==> (#[trigger] out@[k])@ == elements[k],
                decreases a@.len() - i,
            {
                assert(decreases_to!(whole => whole->Array_0[i as int]));
                out.push(json_of(&a[i]));
                i += 1;
            }
            let r = Json::Array(out);
            assert(r@->Array_0 == elements);
            r
        },
        Layer::Object(m) => {
            let ghost fields = whole->Object_0;
            let mut out: Vec<(String, Json)> = Vec::new();
            let mut i: usize = 0;
            while i < m.len()
                invariant
                    i <= m@.len(),
                    whole == JsonView::Object(fields),
                    whole == value_contents(*value),
                    fields == Seq::new(
                        m@.len(),
                        |k: int| (m@[k].0@, value_contents(*m@[k].1)),
                    ),
                    out@.len() == i,
                    forall|k: int|
                        0 <= k < i ==> (#[trigger] out@[k]).0@ == fields[k].0 && out@[k].1@
                            == fields[k].1,
                decreases m@.len() - i,
            {
                assert(decreases_to!(whole => whole->Object_0[i as int]));
                assert(decreases_to!(fields[i as int] => fields[i as int].1));
                out.push((m[i].0.clone(), json_of(m[i].1)));
                i += 1;
            }
            let r = Json::Object(out);
            assert(r@->Object_0 == fields);
            r
        },
    }
}

/// Parses a JSON text.
pub fn parse_json(bytes: &[u8]) -> (r: Result<Json, serde_json::Error>)
    ensures
        match r {
            Ok(value) => json_text(bytes@) == Some(value@),
            Err(_) => json_text(bytes@) is None,
        },
{
    match read_value(bytes) {
        Ok(value) => Ok(json_of(&value)),
        Err(e) => Err(e),
    }
}

/// Parses a JSON text that holds an array.
pub fn parse_json_array(bytes: &[u8]) -> (r: Result<Vec<Json>, serde_json::Error>)
    ensures
        match r {
            Ok(values) => json_text(bytes@) == Some(JsonView::Array(views(values@))),
            Err(_) => !(json_text(bytes@) matches Some(JsonView::Array(_))),
        },
{
    match read_values(bytes) {
        Ok(values) => {
            let ghost elements = json_text(bytes@)->0->Array_0;
            let mut out: Vec<Json> = Vec::new();
            let mut i: usize = 0;
            while i < values.len()
                invariant
                    i <= values@.len(),
                    elements == Seq::new(values@.len(), |k: int| value_contents(values@[k])),
                    out@.len() == i,
                    forall|k: int| 0 <= k < i ==> (#[trigger] out@[k])@ == elements[k],
                decreases values@.len() - i,
            {
                out.push(json_of(&values[i]));
                i += 1;
            }
            assert(views(out@) == elements);
            Ok(out)
        },
        Err(e) => Err(e),
    }
}

/// A field is found under its name, the first where the name comes up more than
/// once. Nothing but an object has fields.
pub proof fn fields_are_found_by_name(fields: Seq<(Seq<char>, JsonView)>, key: Seq<char>, i: int)
    ensures
        0 <= i < fields.len() && fields[i].0 == key && (forall|k: int|
            0 <= k < i ==> (#[trigger] fields[k]).0 != key) ==> JsonView::Object(fields).get(key)
            == Some(fields[i].1),
        (forall|k: int| 0 <= k < fields.len() ==> (#[trigger] fields[k]).0 != key)
            ==> JsonView::Object(fields).get(key) is None,
{
    lemma_first_field(fields, key, 0, i);
}

proof fn lemma_first_field(
    fields: Seq<(Seq<char>, JsonView)>,
    key: Seq<char>,
    from: int,
    i: int,
)
    requires
        0 <= from <= fields.len(),
    ensures
        from <= i < fields.len() && fields[i].0 == key && (forall|k: int|
            from <= k < i ==> (#[trigger] fields[k]).0 != key) ==> field_from(fields, key, from)
            == Some(fields[i].1),
        (forall|k: int| from <= k < fields.len() ==> (#[trigger] fields[k]).0 != key)
            ==> field_from(fields, key, from) is None,
    decreases fields.len() - from,
{
    if from < fields.len() && fields[from].0 != key {
        lemma_first_field(fields, key, from + 1, i);
    }
}

/// A field is read as what it is, and as nothing where it is of another kind or is
/// not there.
pub proof fn fields_are_read_by_kind(value: JsonView, key: Seq<char>)
    ensures
        match value.get(key) {
            Some(JsonView::Text(s)) => value.text_at(key) == Some(s) && value.text_or_empty(key)
                == s,
            _ => value.text_at(key) is None && value.text_or_empty(key).len() == 0,
        },
        match value.get(key) {
            Some(JsonView::Number { integer: Some(n), .. }) => value.i64_at(key) == Some(n)
                && value.i64_or_zero(key) == n,
            _ => value.i64_at(key) is None && value.i64_or_zero(key) == 0,
        },
        match value.get(key) {
            Some(JsonView::Bool(b)) => value.bool_at(key) == Some(b),
            _ => value.bool_at(key) is None,
        },
        match value.get(key) {
            Some(JsonView::Array(a)) => value.elements_at(key) == a,
            _ => value.elements_at(key).len() == 0,
        },
        !(value is Object) ==> value.get(key) is None,
{
}

} // verus!
