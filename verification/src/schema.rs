//! JSON Schemas for tool arguments: an object with described properties.

use vstd::prelude::*;
use vstd::string::*;

use crate::json;
use crate::json::Json;
use crate::text;

verus! {

/// A property: its name, its JSON type and its description.
pub struct Property {
    pub name: String,
    pub kind: String,
    pub description: String,
}

/// What a property stands for.
pub struct PropertyView {
    pub name: Seq<char>,
    pub kind: Seq<char>,
    pub description: Seq<char>,
}

impl View for Property {
    type V = PropertyView;

    open spec fn view(&self) -> PropertyView {
        PropertyView { name: self.name@, kind: self.kind@, description: self.description@ }
    }
}

/// The views of a list of properties.
pub open spec fn properties_view(list: Seq<Property>) -> Seq<PropertyView> {
    Seq::new(list.len(), |i: int| list[i]@)
}

/// A property's view from its parts.
pub open spec fn prop(name: Seq<char>, kind: Seq<char>, description: Seq<char>) -> PropertyView {
    PropertyView { name, kind, description }
}

/// A property from its parts.
pub fn property(name: &str, kind: &str, description: &str) -> (r: Property)
    ensures
        r@ == prop(name@, kind@, description@),
{
    Property {
        name: name.to_owned(),
        kind: kind.to_owned(),
        description: description.to_owned(),
    }
}

/// The schema of one property.
pub open spec fn property_schema(p: PropertyView) -> json::JsonView {
    json::JsonView::Object(
        seq![
            ("type"@, json::JsonView::Text(p.kind)),
            ("description"@, json::JsonView::Text(p.description)),
        ],
    )
}

/// A JSON array of texts.
pub open spec fn text_array(items: Seq<Seq<char>>) -> json::JsonView {
    json::JsonView::Array(Seq::new(items.len(), |i: int| json::JsonView::Text(items[i])))
}

/// The schema of an object with the given properties; `required` is left
/// out where it is none.
pub open spec fn object_schema_spec(
    properties: Seq<PropertyView>,
    required: Option<Seq<Seq<char>>>,
) -> json::JsonView {
    let fields = seq![
        ("type"@, json::JsonView::Text("object"@)),
        (
            "properties"@,
            json::JsonView::Object(
                Seq::new(
                    properties.len(),
                    |i: int| (properties[i].name, property_schema(properties[i])),
                ),
            ),
        ),
    ];
    json::JsonView::Object(
        match required {
            Some(names) => fields.push(("required"@, text_array(names))),
            None => fields,
        },
    )
}

/// A JSON array of texts.
pub fn texts(items: &Vec<String>) -> (r: Json)
    ensures
        r@ == text_array(text::views(items@)),
{
    let mut out: Vec<Json> = Vec::new();
    let mut i: usize = 0;
    while i < items.len()
        invariant
            i <= items@.len(),
            out@.len() == i,
            forall|k: int|
                0 <= k < i ==> json::json_view(#[trigger] out@[k]) == json::JsonView::Text(
                    items@[k]@,
                ),
        decreases items@.len() - i,
    {
        out.push(Json::Text(items[i].clone()));
        i = i + 1;
    }
    let r = Json::Array(out);
    assert(json::json_view(r)->Array_0 =~= text_array(text::views(items@))->Array_0);
    r
}

/// A JSON text.
pub fn text_value(s: &str) -> (r: Json)
    ensures
        r@ == json::JsonView::Text(s@),
{
    Json::Text(s.to_owned())
}

/// A JSON text, or null.
pub fn optional_text(s: Option<&str>) -> (r: Json)
    ensures
        r@ == (match s {
            Some(s) => json::JsonView::Text(s@),
            None => json::JsonView::Null,
        }),
{
    match s {
        Some(s) => Json::Text(s.to_owned()),
        None => Json::Null,
    }
}

/// An object with two fields.
pub fn pair(a: &str, x: Json, b: &str, y: Json) -> (r: Json)
    ensures
        r@ == json::JsonView::Object(seq![(a@, x@), (b@, y@)]),
{
    let mut fields: Vec<(String, Json)> = Vec::new();
    fields.push((a.to_owned(), x));
    fields.push((b.to_owned(), y));
    let r = Json::Object(fields);
    assert(json::json_view(r)->Object_0 =~= seq![(a@, x@), (b@, y@)]);
    r
}

/// An object with one field.
pub fn single(a: &str, x: Json) -> (r: Json)
    ensures
        r@ == json::JsonView::Object(seq![(a@, x@)]),
{
    let mut fields: Vec<(String, Json)> = Vec::new();
    fields.push((a.to_owned(), x));
    let r = Json::Object(fields);
    assert(json::json_view(r)->Object_0 =~= seq![(a@, x@)]);
    r
}

/// An object with three fields.
pub fn triple(a: &str, x: Json, b: &str, y: Json, c: &str, z: Json) -> (r: Json)
    ensures
        r@ == json::JsonView::Object(seq![(a@, x@), (b@, y@), (c@, z@)]),
{
    let mut fields: Vec<(String, Json)> = Vec::new();
    fields.push((a.to_owned(), x));
    fields.push((b.to_owned(), y));
    fields.push((c.to_owned(), z));
    let r = Json::Object(fields);
    assert(json::json_view(r)->Object_0 =~= seq![(a@, x@), (b@, y@), (c@, z@)]);
    r
}

/// An object with four fields.
pub fn quad(a: &str, x: Json, b: &str, y: Json, c: &str, z: Json, d: &str, w: Json) -> (r: Json)
    ensures
        r@ == json::JsonView::Object(seq![(a@, x@), (b@, y@), (c@, z@), (d@, w@)]),
{
    let mut fields: Vec<(String, Json)> = Vec::new();
    fields.push((a.to_owned(), x));
    fields.push((b.to_owned(), y));
    fields.push((c.to_owned(), z));
    fields.push((d.to_owned(), w));
    let r = Json::Object(fields);
    assert(json::json_view(r)->Object_0 =~= seq![(a@, x@), (b@, y@), (c@, z@), (d@, w@)]);
    r
}

/// The schema of an object with the given properties.
pub fn object_schema(properties: &Vec<Property>, required: Option<&Vec<String>>) -> (r: Json)
    ensures
        r@ == object_schema_spec(
            properties_view(properties@),
            match required {
                Some(names) => Some(text::views(names@)),
                None => None,
            },
        ),
{
    let ghost views = properties_view(properties@);
    let mut described: Vec<(String, Json)> = Vec::new();
    let mut i: usize = 0;
    while i < properties.len()
        invariant
            i <= properties@.len(),
            described@.len() == i,
            views == properties_view(properties@),
            forall|k: int|
                0 <= k < i ==> (#[trigger] described@[k]).0@ == views[k].name && json::json_view(
                    described@[k].1,
                ) == property_schema(views[k]),
        decreases properties@.len() - i,
    {
        let p = &properties[i];
        let schema = pair(
            "type",
            Json::Text(p.kind.clone()),
            "description",
            Json::Text(p.description.clone()),
        );
        described.push((p.name.clone(), schema));
        i = i + 1;
    }
    let inner = Json::Object(described);
    assert(json::json_view(inner)->Object_0 =~= Seq::new(
        views.len(),
        |i: int| (views[i].name, property_schema(views[i])),
    ));
    match required {
        Some(names) => {
            let listed = texts(names);
            let ghost a = ("type"@, json::JsonView::Text("object"@));
            let ghost b = ("properties"@, inner@);
            let ghost c = ("required"@, listed@);
            assert(seq![a, b].push(c) =~= seq![a, b, c]);
            triple(
                "type",
                Json::Text("object".to_owned()),
                "properties",
                inner,
                "required",
                listed,
            )
        },
        None => pair("type", Json::Text("object".to_owned()), "properties", inner),
    }
}

// ---------------------------------------------------------------------------
// Objects and arrays
// ---------------------------------------------------------------------------

/// The views of an object's fields.
pub open spec fn fields_view(fields: Seq<(String, Json)>) -> Seq<(Seq<char>, json::JsonView)> {
    Seq::new(fields.len(), |i: int| (fields[i].0@, fields[i].1@))
}

/// The views of an array's items.
pub open spec fn items_view(items: Seq<Json>) -> Seq<json::JsonView> {
    Seq::new(items.len(), |i: int| items[i]@)
}

/// Add a field.
pub fn add_field(fields: &mut Vec<(String, Json)>, name: &str, value: Json)
    ensures
        fields_view(final(fields)@) == fields_view(old(fields)@).push((name@, value@)),
{
    let ghost before = fields@;
    fields.push((name.to_owned(), value));
    assert(fields_view(fields@) =~= fields_view(before).push((name@, value@)));
}

/// Add an item.
pub fn add_item(items: &mut Vec<Json>, value: Json)
    ensures
        items_view(final(items)@) == items_view(old(items)@).push(value@),
{
    let ghost before = items@;
    items.push(value);
    assert(items_view(items@) =~= items_view(before).push(value@));
}

/// An object.
pub fn object(fields: Vec<(String, Json)>) -> (r: Json)
    ensures
        r@ == json::JsonView::Object(fields_view(fields@)),
{
    let ghost all = fields_view(fields@);
    let r = Json::Object(fields);
    assert(json::json_view(r)->Object_0 =~= all);
    r
}

/// An array.
pub fn array(items: Vec<Json>) -> (r: Json)
    ensures
        r@ == json::JsonView::Array(items_view(items@)),
{
    let ghost all = items_view(items@);
    let r = Json::Array(items);
    assert(json::json_view(r)->Array_0 =~= all);
    r
}

/// A truth value.
pub fn flag(b: bool) -> (r: Json)
    ensures
        r@ == json::JsonView::Bool(b),
{
    Json::Bool(b)
}

/// A whole number.
pub fn count(n: u64) -> (r: Json)
    ensures
        r@ == json::JsonView::Number(json::NumberView::Unsigned(n)),
{
    Json::Number(json::Number::Unsigned(n))
}

/// One field, or none.
pub open spec fn optional_field(name: Seq<char>, value: Option<json::JsonView>) -> Seq<
    (Seq<char>, json::JsonView),
> {
    match value {
        Some(v) => seq![(name, v)],
        None => seq![],
    }
}

/// Add a field where there is a value for it.
pub fn add_optional(fields: &mut Vec<(String, Json)>, name: &str, value: Option<Json>)
    ensures
        fields_view(final(fields)@) == fields_view(old(fields)@) + optional_field(
            name@,
            match value {
                Some(v) => Some(v@),
                None => None,
            },
        ),
{
    let ghost before = fields_view(fields@);
    match value {
        Some(v) => {
            let ghost added = v@;
            add_field(fields, name, v);
            assert(before.push((name@, added)) =~= before + seq![(name@, added)]);
        },
        None => {
            assert(before + Seq::<(Seq<char>, json::JsonView)>::empty() =~= before);
        },
    }
}

} // verus!
