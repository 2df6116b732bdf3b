//! Input schemas in JSON.
use vstd::prelude::*;

use crate::json::add_entry;
use crate::json::add_maybe;
use crate::json::build_object;
use crate::json::clone_items;
use crate::json::count_json;
use crate::json::field;
use crate::json::law_object_holds;
use crate::json::lemma_array_view;
use crate::json::maybe;
use crate::json::members_view;
use crate::json::object_of;
use crate::json::optional_view;
use crate::json::texts_json;
use crate::json::texts_to_json;
use crate::json::Json;
use crate::json::JsonNumber;
use crate::json::JsonView;
use crate::types::lemma_nested_properties;
use crate::types::optional_items;
use crate::types::optional_text;
use crate::types::optional_texts;
use crate::types::properties_view;
use crate::types::AdditionalView;
use crate::types::NumericBound;
use crate::types::PropertyType;
use crate::types::PropertyView;
use crate::types::SchemaView;
use crate::types::ToolAdditionalProperties;
use crate::types::ToolInputProperty;
use crate::types::ToolInputSchema;

verus! {

/// The name of a type in JSON Schema.
pub open spec fn json_type(t: PropertyType) -> Seq<char> {
    match t {
        PropertyType::String => "string"@,
        PropertyType::Number => "number"@,
        PropertyType::Integer => "integer"@,
        PropertyType::Boolean => "boolean"@,
        PropertyType::Array => "array"@,
        PropertyType::Object => "object"@,
        PropertyType::Null => "null"@,
    }
}

fn name_of_type(t: PropertyType) -> (r: &'static str)
    ensures
        r@ == json_type(t),
{
    match t {
        PropertyType::String => "string",
        PropertyType::Number => "number",
        PropertyType::Integer => "integer",
        PropertyType::Boolean => "boolean",
        PropertyType::Array => "array",
        PropertyType::Object => "object",
        PropertyType::Null => "null",
    }
}

/// A text that may be absent, as a value.
pub open spec fn maybe_text(s: Option<Seq<char>>) -> Option<JsonView> {
    match s {
        Some(s) => Some(JsonView::String(s)),
        None => None,
    }
}

/// Values that may be absent, as a value.
pub open spec fn maybe_items(v: Option<Seq<JsonView>>) -> Option<JsonView> {
    match v {
        Some(v) => Some(JsonView::Array(v)),
        None => None,
    }
}

/// A bound that may be absent, as a value.
pub open spec fn maybe_bound(b: Option<NumericBound>) -> Option<JsonView> {
    match b {
        Some(b) => Some(JsonView::Number(b.number@)),
        None => None,
    }
}

/// A length that may be absent, as a value.
pub open spec fn maybe_length(n: Option<usize>) -> Option<JsonView> {
    match n {
        Some(n) => Some(count_json(n as nat)),
        None => None,
    }
}

/// Names that may be absent, as a value.
pub open spec fn maybe_texts(v: Option<Seq<Seq<char>>>) -> Option<JsonView> {
    match v {
        Some(v) => Some(texts_json(v)),
        None => None,
    }
}

/// What stands before the nested schemas in the JSON of a property.
pub open spec fn plain_members(p: PropertyView) -> Seq<(Seq<char>, JsonView)> {
    seq![("type"@, JsonView::String(json_type(p.property_type)))] + maybe(
        "description"@,
        maybe_text(p.description),
    ) + maybe("enum_values"@, maybe_items(p.enum_values)) + maybe(
        "minimum"@,
        maybe_bound(p.minimum),
    ) + maybe("maximum"@, maybe_bound(p.maximum)) + maybe(
        "min_length"@,
        maybe_length(p.min_length),
    ) + maybe("max_length"@, maybe_length(p.max_length)) + maybe(
        "required"@,
        maybe_texts(p.required),
    )
}

/// A property in JSON; what is not said of it has no member.
pub open spec fn property_json(p: PropertyView) -> JsonView
    decreases p,
{
    JsonView::Object(
        object_of(
            plain_members(p) + maybe(
                "items"@,
                match p.items {
                    Some(i) => Some(property_json(*i)),
                    None => None,
                },
            ) + maybe(
                "properties"@,
                match p.properties {
                    Some(v) => Some(JsonView::Object(object_of(named_json(v)))),
                    None => None,
                },
            ) + maybe(
                "additionalProperties"@,
                match p.additional_properties {
                    Some(AdditionalView::Boolean(b)) => Some(JsonView::Bool(b)),
                    Some(AdditionalView::Schema(s)) => Some(property_json(*s)),
                    None => None,
                },
            ),
        ),
    )
}

/// Named properties, each in JSON.
pub open spec fn named_json(v: Seq<(Seq<char>, PropertyView)>) -> Seq<(Seq<char>, JsonView)>
    decreases v,
{
    if v.len() == 0 {
        Seq::empty()
    } else {
        named_json(v.drop_last()).push((v.last().0, property_json(v.last().1)))
    }
}

/// A schema in JSON.
pub open spec fn schema_json(s: SchemaView) -> JsonView {
    JsonView::Object(
        object_of(
            seq![
                ("type"@, JsonView::String("object"@)),
                ("properties"@, JsonView::Object(object_of(named_json(s.properties)))),
            ] + maybe("required"@, maybe_texts(s.required)) + maybe(
                "additionalProperties"@,
                match s.additional_properties {
                    Some(b) => Some(JsonView::Bool(b)),
                    None => None,
                },
            ),
        ),
    )
}

fn some_text(s: &Option<String>) -> (r: Option<Json>)
    ensures
        optional_view(r) == maybe_text(optional_text(*s)),
{
    match s {
        Some(s) => Some(Json::String(s.clone())),
        None => None,
    }
}

fn some_items(v: &Option<Vec<Json>>) -> (r: Option<Json>)
    ensures
        optional_view(r) == maybe_items(optional_items(*v)),
{
    match v {
        Some(v) => {
            let items = clone_items(v);
            proof {
                lemma_array_view(items);
            }
            Some(Json::Array(items))
        },
        None => None,
    }
}

fn some_bound(b: &Option<NumericBound>) -> (r: Option<Json>)
    ensures
        optional_view(r) == maybe_bound(*b),
{
    match b {
        Some(b) => Some(Json::Number(b.number.clone())),
        None => None,
    }
}

fn some_length(n: Option<usize>) -> (r: Option<Json>)
    ensures
        optional_view(r) == maybe_length(n),
{
    match n {
        Some(n) => Some(Json::Number(JsonNumber::PosInt(n as u64))),
        None => None,
    }
}

fn some_texts(v: &Option<Vec<String>>) -> (r: Option<Json>)
    ensures
        optional_view(r) == maybe_texts(optional_texts(*v)),
{
    match v {
        Some(v) => Some(texts_to_json(v)),
        None => None,
    }
}

impl ToolInputProperty {
    fn plain_entries(&self) -> (r: Vec<(String, Json)>)
        ensures
            members_view(r@) == plain_members(self@),
    {
        let mut pairs: Vec<(String, Json)> = Vec::new();
        let label = name_of_type(self.property_type);
        add_entry(&mut pairs, "type", Json::String(String::from_str(label)));
        assert(members_view(pairs@) =~= seq![
            ("type"@, JsonView::String(json_type(self.property_type))),
        ]);
        add_maybe(&mut pairs, "description", some_text(&self.description));
        add_maybe(&mut pairs, "enum_values", some_items(&self.enum_values));
        add_maybe(&mut pairs, "minimum", some_bound(&self.minimum));
        add_maybe(&mut pairs, "maximum", some_bound(&self.maximum));
        add_maybe(&mut pairs, "min_length", some_length(self.min_length));
        add_maybe(&mut pairs, "max_length", some_length(self.max_length));
        add_maybe(&mut pairs, "required", some_texts(&self.required));
        pairs
    }

    /// The property in JSON.
    pub fn to_json(&self) -> (r: Json)
        ensures
            r@ == property_json(self@),
        decreases self,
    {
        let mut pairs = self.plain_entries();
        let items = match &self.items {
            Some(b) => {
                assert(decreases_to!(*self => self.items->0));
                Some((&**b).to_json())
            },
            None => None,
        };
        add_maybe(&mut pairs, "items", items);
        let nested = match &self.properties {
            Some(v) => {
                let ghost all = properties_view(v@);
                let mut out: Vec<(String, Json)> = Vec::new();
                let mut i: usize = 0;
                let n = v.len();
                assert(all.take(0) =~= Seq::<(Seq<char>, PropertyView)>::empty());
                assert(members_view(out@) =~= Seq::<(Seq<char>, JsonView)>::empty());
                while i < n
                    invariant
                        i <= n,
                        n == v@.len(),
                        self.properties == Some(*v),
                        all == properties_view(v@),
                        members_view(out@) == named_json(all.take(i as int)),
                    decreases n - i,
                {
                    assert(decreases_to!(*self => self.properties->0@[i as int].1));
                    let j = v[i].1.to_json();
                    assert(all.take(i + 1).drop_last() =~= all.take(i as int));
                    assert(all.take(i + 1).last() == (v@[i as int].0@, v@[i as int].1@));
                    add_entry(&mut out, v[i].0.as_str(), j);
                    i = i + 1;
                }
                assert(all.take(n as int) =~= all);
                Some(build_object(out))
            },
            None => None,
        };
        proof {
            lemma_nested_properties(*self);
        }
        add_maybe(&mut pairs, "properties", nested);
        let more = match &self.additional_properties {
            Some(ToolAdditionalProperties::Boolean(b)) => Some(Json::Bool(*b)),
            Some(ToolAdditionalProperties::Schema(s)) => {
                assert(decreases_to!(*self => self.additional_properties->0->Schema_0));
                Some((&**s).to_json())
            },
            None => None,
        };
        add_maybe(&mut pairs, "additionalProperties", more);
        build_object(pairs)
    }
}

impl ToolInputSchema {
    /// The schema in JSON.
    pub fn to_json(&self) -> (r: Json)
        ensures
            r@ == schema_json(self@),
    {
        let v = &self.properties;
        let ghost all = properties_view(v@);
        let mut out: Vec<(String, Json)> = Vec::new();
        let mut i: usize = 0;
        let n = v.len();
        assert(all.take(0) =~= Seq::<(Seq<char>, PropertyView)>::empty());
        assert(members_view(out@) =~= Seq::<(Seq<char>, JsonView)>::empty());
        while i < n
            invariant
                i <= n,
                n == v@.len(),
                all == properties_view(v@),
                members_view(out@) == named_json(all.take(i as int)),
            decreases n - i,
        {
            let j = v[i].1.to_json();
            assert(all.take(i + 1).drop_last() =~= all.take(i as int));
            assert(all.take(i + 1).last() == (v@[i as int].0@, v@[i as int].1@));
            add_entry(&mut out, v[i].0.as_str(), j);
            i = i + 1;
        }
        assert(all.take(n as int) =~= all);
        let mut pairs: Vec<(String, Json)> = Vec::new();
        add_entry(&mut pairs, "type", Json::String(String::from_str("object")));
        add_entry(&mut pairs, "properties", build_object(out));
        assert(members_view(pairs@) =~= seq![
            ("type"@, JsonView::String("object"@)),
            ("properties"@, JsonView::Object(object_of(named_json(self@.properties)))),
        ]);
        add_maybe(&mut pairs, "required", some_texts(&self.required));
        let more = match self.additional_properties {
            Some(b) => Some(Json::Bool(b)),
            None => None,
        };
        add_maybe(&mut pairs, "additionalProperties", more);
        build_object(pairs)
    }
}

/// A schema is written as an object schema, with its properties, and with what is required where
/// that is said.
pub proof fn law_schema_json(s: SchemaView)
    ensures
        field(schema_json(s), "type"@) == Some(JsonView::String("object"@)),
        field(schema_json(s), "properties"@) == Some(
            JsonView::Object(object_of(named_json(s.properties))),
        ),
        field(schema_json(s), "required"@) == match s.required {
            Some(v) => Some(texts_json(v)),
            None => None,
        },
        field(schema_json(s), "additionalProperties"@) == match s.additional_properties {
            Some(b) => Some(JsonView::Bool(b)),
            None => None,
        },
{
    let a = seq![
        ("type"@, JsonView::String("object"@)),
        ("properties"@, JsonView::Object(object_of(named_json(s.properties)))),
    ];
    let pairs = a + maybe("required"@, maybe_texts(s.required)) + maybe(
        "additionalProperties"@,
        match s.additional_properties {
            Some(b) => Some(JsonView::Bool(b)),
            None => None,
        },
    );
    reveal_strlit("type");
    reveal_strlit("properties");
    reveal_strlit("required");
    reveal_strlit("additionalProperties");
    assert("type"@.len() == 4);
    assert("properties"@.len() == 10);
    assert("required"@.len() == 8);
    assert("additionalProperties"@.len() == 20);
    law_object_holds(pairs, 0, "type"@);
    law_object_holds(pairs, 1, "properties"@);
    law_object_holds(pairs, 2, "required"@);
    law_object_holds(pairs, pairs.len() - 1, "additionalProperties"@);
}

/// The properties of a schema are written one by one, each under its name.
pub proof fn law_named_json(v: Seq<(Seq<char>, PropertyView)>)
    ensures
        named_json(v).len() == v.len(),
        forall|i: int|
            0 <= i < v.len() ==> #[trigger] named_json(v)[i] == (v[i].0, property_json(v[i].1)),
    decreases v.len(),
{
    if v.len() > 0 {
        law_named_json(v.drop_last());
        let d = named_json(v.drop_last());
        assert forall|i: int| 0 <= i < v.len() implies #[trigger] named_json(v)[i] == (
            v[i].0,
            property_json(v[i].1),
        ) by {
            if i < v.len() - 1 {
                assert(d[i] == (v.drop_last()[i].0, property_json(v.drop_last()[i].1)));
            }
        }
    }
}

/// Each type of a property is written under the name that JSON Schema has for it.
pub proof fn law_type_names()
    ensures
        json_type(PropertyType::String) == "string"@,
        json_type(PropertyType::Number) == "number"@,
        json_type(PropertyType::Integer) == "integer"@,
        json_type(PropertyType::Boolean) == "boolean"@,
        json_type(PropertyType::Array) == "array"@,
        json_type(PropertyType::Object) == "object"@,
        json_type(PropertyType::Null) == "null"@,
{
}

} // verus!
