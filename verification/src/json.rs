//! JSON values as the library reads and builds them.

use vstd::prelude::*;
use vstd::string::*;

use crate::table;
use crate::text;

verus! {

/// A JSON number: an integer, or the text of any other number.
pub enum Number {
    Unsigned(u64),
    Negative(i64),
    Decimal(String),
}

/// A JSON value.
pub enum Json {
    Null,
    Bool(bool),
    Number(Number),
    Text(String),
    Array(Vec<Json>),
    Object(Vec<(String, Json)>),
}

/// What a JSON number stands for.
pub enum NumberView {
    Unsigned(u64),
    Negative(i64),
    Decimal(Seq<char>),
}

/// What a JSON value stands for.
pub enum JsonView {
    Null,
    Bool(bool),
    Number(NumberView),
    Text(Seq<char>),
    Array(Seq<JsonView>),
    Object(Seq<(Seq<char>, JsonView)>),
}

impl View for Number {
    type V = NumberView;

    open spec fn view(&self) -> NumberView {
        match self {
            Number::Unsigned(n) => NumberView::Unsigned(*n),
            Number::Negative(n) => NumberView::Negative(*n),
            Number::Decimal(s) => NumberView::Decimal(s@),
        }
    }
}

/// What a JSON value stands for.
pub open spec fn json_view(j: Json) -> JsonView
    decreases j,
{
    match j {
        Json::Null => JsonView::Null,
        Json::Bool(b) => JsonView::Bool(b),
        Json::Number(n) => JsonView::Number(n@),
        Json::Text(s) => JsonView::Text(s@),
        Json::Array(items) => JsonView::Array(
            Seq::new(
                items@.len(),
                |i: int|
                    if 0 <= i < items@.len() {
                        json_view(items@[i])
                    } else {
                        JsonView::Null
                    },
            ),
        ),
        Json::Object(fields) => JsonView::Object(
            Seq::new(
                fields@.len(),
                |i: int|
                    if 0 <= i < fields@.len() {
                        (fields@[i].0@, json_view(fields@[i].1))
                    } else {
                        (seq![], JsonView::Null)
                    },
            ),
        ),
    }
}

impl View for Json {
    type V = JsonView;

    open spec fn view(&self) -> JsonView {
        json_view(*self)
    }
}

impl Clone for Number {
    fn clone(&self) -> (r: Number)
        ensures
            r@ == self@,
    {
        match self {
            Number::Unsigned(n) => Number::Unsigned(*n),
            Number::Negative(n) => Number::Negative(*n),
            Number::Decimal(s) => Number::Decimal(s.clone()),
        }
    }
}

/// A copy of a JSON value.
pub fn copy(j: &Json) -> (r: Json)
    ensures
        r@ == j@,
    decreases *j,
{
    match j {
        Json::Null => Json::Null,
        Json::Bool(b) => Json::Bool(*b),
        Json::Number(n) => Json::Number(n.clone()),
        Json::Text(s) => Json::Text(s.clone()),
        Json::Array(items) => {
            let mut out: Vec<Json> = Vec::new();
            let mut i: usize = 0;
            while i < items.len()
                invariant
                    i <= items@.len(),
                    out@.len() == i,
                    *j == Json::Array(*items),
                    forall|k: int| 0 <= k < i ==> json_view(#[trigger] out@[k]) == json_view(items@[k]),
                decreases items@.len() - i,
            {
                assert(decreases_to!(j->Array_0@ => j->Array_0@[i as int]));
                assert(decreases_to!(*j => j->Array_0@[i as int]));
                let item = copy(&items[i]);
                out.push(item);
                i = i + 1;
            }
            let r = Json::Array(out);
            assert(json_view(r)->Array_0 =~= json_view(*j)->Array_0);
            r
        },
        Json::Object(fields) => {
            let mut out: Vec<(String, Json)> = Vec::new();
            let mut i: usize = 0;
            while i < fields.len()
                invariant
                    i <= fields@.len(),
                    out@.len() == i,
                    *j == Json::Object(*fields),
                    forall|k: int|
                        0 <= k < i ==> (#[trigger] out@[k]).0@ == fields@[k].0@ && json_view(out@[k].1)
                            == json_view(fields@[k].1),
                decreases fields@.len() - i,
            {
                let name = fields[i].0.clone();
                assert(decreases_to!(j->Object_0@ => j->Object_0@[i as int]));
                assert(decreases_to!(j->Object_0@ => j->Object_0@[i as int].1));
                assert(decreases_to!(*j => j->Object_0@[i as int].1));
                let value = copy(&fields[i].1);
                out.push((name, value));
                i = i + 1;
            }
            let r = Json::Object(out);
            assert(json_view(r)->Object_0 =~= json_view(*j)->Object_0);
            r
        },
    }
}

impl Clone for Json {
    fn clone(&self) -> (r: Json)
        ensures
            r@ == self@,
    {
        copy(self)
    }
}

impl JsonView {
    /// The position of the first field of that name from `from` on.
    pub open spec fn field_from(fields: Seq<(Seq<char>, JsonView)>, name: Seq<char>, from: int) -> Option<
        int,
    >
        decreases fields.len() - from,
    {
        if from < 0 || from >= fields.len() {
            None
        } else if fields[from].0 == name {
            Some(from)
        } else {
            Self::field_from(fields, name, from + 1)
        }
    }

    /// The value of an object's field.
    pub open spec fn field(self, name: Seq<char>) -> Option<JsonView> {
        match self {
            JsonView::Object(fields) => match Self::field_from(fields, name, 0) {
                Some(i) => Some(fields[i].1),
                None => None,
            },
            _ => None,
        }
    }

    /// The text of a text value.
    pub open spec fn text_value(self) -> Option<Seq<char>> {
        match self {
            JsonView::Text(s) => Some(s),
            _ => None,
        }
    }

    /// The text in an object's field.
    pub open spec fn text_field(self, name: Seq<char>) -> Option<Seq<char>> {
        match self.field(name) {
            Some(v) => v.text_value(),
            None => None,
        }
    }

    /// The text in an object's field, empty where there is none.
    pub open spec fn text_or_empty(self, name: Seq<char>) -> Seq<char> {
        match self.text_field(name) {
            Some(s) => s,
            None => seq![],
        }
    }

    /// The number in an object's field, where it is a whole one and not
    /// negative.
    pub open spec fn count_field(self, name: Seq<char>) -> Option<u64> {
        match self.field(name) {
            Some(JsonView::Number(NumberView::Unsigned(n))) => Some(n),
            _ => None,
        }
    }

    /// The truth value in an object's field.
    pub open spec fn flag_field(self, name: Seq<char>) -> Option<bool> {
        match self.field(name) {
            Some(JsonView::Bool(b)) => Some(b),
            _ => None,
        }
    }
}

impl Json {
    /// The value of an object's field.
    pub fn get(&self, name: &str) -> (r: Option<&Json>)
        ensures
            match r {
                Some(v) => self@.field(name@) == Some(v@),
                None => self@.field(name@) is None,
            },
            r matches Some(v) ==> decreases_to!(*self => *v),
    {
        match self {
            Json::Object(fields) => {
                let ghost all = self@->Object_0;
                let mut i: usize = 0;
                while i < fields.len()
                    invariant
                        i <= fields@.len(),
                        *self == Json::Object(*fields),
                        all == self@->Object_0,
                        JsonView::field_from(all, name@, 0) == JsonView::field_from(
                            all,
                            name@,
                            i as int,
                        ),
                    decreases fields@.len() - i,
                {
                    assert(all[i as int] == (fields@[i as int].0@, fields@[i as int].1@));
                    if text::same(fields[i].0.as_str(), name) {
                        assert(decreases_to!(fields@ => fields@[i as int]));
                        return Some(&fields[i].1);
                    }
                    i = i + 1;
                }
                None
            },
            _ => None,
        }
    }

    /// The text of a text value.
    pub fn as_text(&self) -> (r: Option<&str>)
        ensures
            match r {
                Some(s) => self@.text_value() == Some(s@),
                None => self@.text_value() is None,
            },
    {
        match self {
            Json::Text(s) => Some(s.as_str()),
            _ => None,
        }
    }

    /// The text in an object's field.
    pub fn text_field(&self, name: &str) -> (r: Option<&str>)
        ensures
            match r {
                Some(s) => self@.text_field(name@) == Some(s@),
                None => self@.text_field(name@) is None,
            },
    {
        match self.get(name) {
            Some(v) => v.as_text(),
            None => None,
        }
    }

    /// The text in an object's field, empty where there is none.
    pub fn text_or_empty(&self, name: &str) -> (r: String)
        ensures
            r@ == self@.text_or_empty(name@),
    {
        match self.text_field(name) {
            Some(s) => s.to_owned(),
            None => String::new(),
        }
    }

    /// The number in an object's field, where it is a whole one and not
    /// negative.
    pub fn count_field(&self, name: &str) -> (r: Option<u64>)
        ensures
            r == self@.count_field(name@),
    {
        match self.get(name) {
            Some(Json::Number(Number::Unsigned(n))) => Some(*n),
            _ => None,
        }
    }

    /// The truth value in an object's field.
    pub fn flag_field(&self, name: &str) -> (r: Option<bool>)
        ensures
            r == self@.flag_field(name@),
    {
        match self.get(name) {
            Some(Json::Bool(b)) => Some(*b),
            _ => None,
        }
    }
}

// ---------------------------------------------------------------------------
// Text form
// ---------------------------------------------------------------------------

/// A value of the JSON crate.
#[verifier::external_type_specification]
#[verifier::external_body]
pub struct ExValue(serde_json::Value);

/// What `serde_json::from_str` makes of a text: the value, or the words of
/// its error.
pub uninterp spec fn parsed(source: Seq<char>) -> Result<JsonView, Seq<char>>;

/// The compact text that `serde_json` writes for a value.
pub uninterp spec fn printed(value: JsonView) -> Seq<char>;

/// The indented text that `serde_json` writes for a value.
pub uninterp spec fn printed_pretty(value: JsonView) -> Seq<char>;

/// A `serde_json::Value` as a value of the library, field for field; a
/// number that is no 64-bit integer is kept as its text.
#[verifier::external_body]
fn from_value(value: serde_json::Value) -> Json {
    match value {
        serde_json::Value::Null => Json::Null,
        serde_json::Value::Bool(b) => Json::Bool(b),
        serde_json::Value::Number(n) => Json::Number(match (n.as_u64(), n.as_i64()) {
            (Some(u), _) => Number::Unsigned(u),
            (None, Some(i)) => Number::Negative(i),
            (None, None) => Number::Decimal(n.to_string()),
        }),
        serde_json::Value::String(s) => Json::Text(s),
        serde_json::Value::Array(items) => Json::Array(items.into_iter().map(from_value).collect()),
        serde_json::Value::Object(m) => Json::Object(m.into_iter().map(|(k, v)| (k, from_value(v))).collect()),
    }
}

/// A value of the library as a `serde_json::Value`, field for field.
#[verifier::external_body]
fn to_value(value: &Json) -> serde_json::Value {
    match value {
        Json::Null => serde_json::Value::Null,
        Json::Bool(b) => serde_json::Value::Bool(*b),
        Json::Number(Number::Unsigned(n)) => serde_json::Value::from(*n),
        Json::Number(Number::Negative(n)) => serde_json::Value::from(*n),
        Json::Number(Number::Decimal(s)) => s.parse().map_or(serde_json::Value::Null, serde_json::Value::Number),
        Json::Text(s) => serde_json::Value::String(s.clone()),
        Json::Array(items) => serde_json::Value::Array(items.iter().map(to_value).collect()),
        Json::Object(m) => m.iter().map(|(k, v)| (k.clone(), to_value(v))).collect(),
    }
}

/// Whether a value is written in a form that is read back as it was: its
/// numbers are whole and in their own kind, the names in its objects ascend,
/// and it is nested at most `depth` deep.
pub open spec fn plain(v: JsonView, depth: nat) -> bool
    decreases depth,
{
    match v {
        JsonView::Number(NumberView::Decimal(_)) => false,
        JsonView::Number(NumberView::Negative(n)) => n < 0,
        JsonView::Array(items) => depth > 0 && forall|i: int|
            0 <= i < items.len() ==> plain(#[trigger] items[i], (depth - 1) as nat),
        JsonView::Object(fields) => depth > 0 && (forall|i: int, j: int|
            0 <= i < j < fields.len() ==> table::before(
                (#[trigger] fields[i]).0,
                (#[trigger] fields[j]).0,
            )) && forall|i: int|
            0 <= i < fields.len() ==> plain((#[trigger] fields[i]).1, (depth - 1) as nat),
        _ => true,
    }
}

/// Nesting that is certainly read back.
pub const PLAIN_DEPTH: usize = 100;

/// Whether a result is the plain value that a text was written for, compact or
/// indented, if it was written for one.
pub open spec fn reads_back(source: Seq<char>, r: Result<Json, String>) -> bool {
    &&& forall|v: JsonView|
        plain(v, PLAIN_DEPTH as nat) && source == #[trigger] printed(v) ==> (r matches Ok(j)
            && j@ == v)
    &&& forall|v: JsonView|
        plain(v, PLAIN_DEPTH as nat) && source == #[trigger] printed_pretty(v) ==> (r matches Ok(j)
            && j@ == v)
}

/// `serde_json::from_str::<Value>`: the value that a text holds, or the words
/// of the error. Which texts parse, and to what, is named and not stated, but
/// for two claims: the text that `serde_json` writes for a plain value is read
/// back as that value, and a blank text is an error.
#[verifier::external_body]
pub(crate) fn parse(source: &str) -> (r: Result<Json, String>)
    ensures
        match r {
            Ok(v) => parsed(source@) == Ok::<JsonView, Seq<char>>(v@),
            Err(e) => parsed(source@) == Err::<JsonView, Seq<char>>(e@),
        },
        reads_back(source@, r),
        text::trim_spec(source@).len() == 0 ==> r is Err,
{
    serde_json::from_str::<serde_json::Value>(source).map(from_value).map_err(|e| e.to_string())
}

/// `serde_json::Value::to_string`: the compact text of a value. How it
/// escapes and orders is named and not stated.
#[verifier::external_body]
pub(crate) fn print(value: &Json) -> (r: String)
    ensures
        r@ == printed(value@),
{
    to_value(value).to_string()
}

/// `serde_json::Value`'s `Display` in its alternate form: the indented text of
/// a value. How it is laid out is named and not stated.
#[verifier::external_body]
pub(crate) fn print_pretty(value: &Json) -> (r: String)
    ensures
        r@ == printed_pretty(value@),
{
    format!("{:#}", to_value(value))
}

} // verus!
