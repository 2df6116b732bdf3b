//! Checks a tool's input against its schema.
use vstd::prelude::*;

use crate::json::field;
use crate::json::items_view;
use crate::json::lemma_array_view;
use crate::json::lemma_object_view;
use crate::json::member_index;
use crate::json::members_view;
use crate::json::same_json;
use crate::json::string_in;
use crate::json::Json;
use crate::json::JsonNumber;
use crate::json::JsonView;
use crate::json::NumberView;
use crate::json_text::json_text;
use crate::json_text::number_rank;
use crate::json_text::written;
use crate::text::clone_strings;
use crate::text::decimal;
use crate::text::join;
use crate::text::join_strings;
use crate::text::push_decimal;
use crate::text::same;
use crate::text::views;
use crate::types::find_property;
use crate::types::property_named;
use crate::types::PropertyType;
use crate::types::PropertyView;
use crate::types::SchemaView;
use crate::types::ToolInputProperty;
use crate::types::ToolInputSchema;

verus! {

/// What a validation found.
#[derive(Debug)]
pub struct ValidationErrors {
    /// `true` when no errors were found.
    pub valid: bool,
    /// Per-field error messages.
    pub errors: Vec<String>,
}

impl ValidationErrors {
    fn new(errors: Vec<String>) -> (r: Self)
        ensures
            r.valid == (errors@.len() == 0),
            r.errors == errors,
    {
        let valid = errors.len() == 0;
        ValidationErrors { valid, errors }
    }
}

impl Clone for ValidationErrors {
    fn clone(&self) -> (r: Self)
        ensures
            r.valid == self.valid,
            views(r.errors@) == views(self.errors@),
    {
        ValidationErrors { valid: self.valid, errors: clone_strings(&self.errors) }
    }
}

impl Default for ValidationErrors {
    fn default() -> (r: Self)
        ensures
            !r.valid,
            r.errors@.len() == 0,
    {
        ValidationErrors { valid: false, errors: Vec::new() }
    }
}

/// The kind of a JSON value, as messages name it.
pub open spec fn kind_of(v: JsonView) -> Seq<char> {
    match v {
        JsonView::Null => "null"@,
        JsonView::Bool(_) => "boolean"@,
        JsonView::Number(NumberView::Float(_)) => "number"@,
        JsonView::Number(_) => "integer"@,
        JsonView::String(_) => "string"@,
        JsonView::Array(_) => "array"@,
        JsonView::Object(_) => "object"@,
    }
}

fn json_kind(value: &Json) -> (r: &'static str)
    ensures
        r@ == kind_of(value@),
{
    match value {
        Json::Null => "null",
        Json::Bool(_) => "boolean",
        Json::Number(JsonNumber::Float(_)) => "number",
        Json::Number(_) => "integer",
        Json::String(_) => "string",
        Json::Array(_) => "array",
        Json::Object(_) => "object",
    }
}

/// The value is of this type; an integer is a number too.
pub open spec fn is_of_type(v: JsonView, t: PropertyType) -> bool {
    match t {
        PropertyType::Integer => v is Number && !(v->Number_0 is Float),
        PropertyType::Number => v is Number,
        PropertyType::String => v is String,
        PropertyType::Boolean => v is Bool,
        PropertyType::Array => v is Array,
        PropertyType::Object => v is Object,
        PropertyType::Null => v is Null,
    }
}

fn fits_type(v: &Json, t: PropertyType) -> (r: bool)
    ensures
        r == is_of_type(v@, t),
{
    match (t, v) {
        (PropertyType::Integer, Json::Number(JsonNumber::Float(_))) => false,
        (PropertyType::Integer, Json::Number(_)) => true,
        (PropertyType::Number, Json::Number(_)) => true,
        (PropertyType::String, Json::String(_)) => true,
        (PropertyType::Boolean, Json::Bool(_)) => true,
        (PropertyType::Array, Json::Array(_)) => true,
        (PropertyType::Object, Json::Object(_)) => true,
        (PropertyType::Null, Json::Null) => true,
        _ => false,
    }
}

/// The name of a type, as messages give it.
pub open spec fn type_label(t: PropertyType) -> Seq<char> {
    match t {
        PropertyType::String => "String"@,
        PropertyType::Number => "Number"@,
        PropertyType::Integer => "Integer"@,
        PropertyType::Boolean => "Boolean"@,
        PropertyType::Array => "Array"@,
        PropertyType::Object => "Object"@,
        PropertyType::Null => "Null"@,
    }
}

fn name_of_type(t: PropertyType) -> (r: &'static str)
    ensures
        r@ == type_label(t),
{
    match t {
        PropertyType::String => "String",
        PropertyType::Number => "Number",
        PropertyType::Integer => "Integer",
        PropertyType::Boolean => "Boolean",
        PropertyType::Array => "Array",
        PropertyType::Object => "Object",
        PropertyType::Null => "Null",
    }
}

/// `Property '<key>' must be `, and what follows.
pub open spec fn must_be(key: Seq<char>, what: Seq<char>) -> Seq<char> {
    "Property '"@ + key + "' must be "@ + what
}

fn must(key: &str, what: &str) -> (r: String)
    ensures
        r@ == must_be(key@, what@),
{
    let mut r = String::from_str("Property '");
    r.append(key);
    r.append("' must be ");
    r.append(what);
    r
}

/// Some of the allowed values is this one.
pub open spec fn is_allowed(values: Seq<JsonView>, v: JsonView) -> bool {
    exists|i: int| 0 <= i < values.len() && same_json(#[trigger] values[i], v)
}

/// The texts of the allowed values.
pub open spec fn value_texts(values: Seq<JsonView>) -> Seq<Seq<char>> {
    values.map_values(|v: JsonView| json_text(written(v)))
}

/// How long a string (in characters) or an array is.
pub open spec fn length_of(v: JsonView) -> Option<nat> {
    match v {
        JsonView::String(s) => Some(s.len()),
        JsonView::Array(items) => Some(items.len()),
        _ => None,
    }
}

/// What is wrong with the size of a number.
pub open spec fn bound_fault(v: JsonView, key: Seq<char>, schema: PropertyView) -> Option<
    Seq<char>,
> {
    match v {
        JsonView::Number(n) => match number_rank(n) {
            None => None,
            Some(rank) => if schema.minimum is Some && rank < schema.minimum->0.rank {
                Some(must_be(key, ">= "@ + schema.minimum->0.label@))
            } else if schema.maximum is Some && rank > schema.maximum->0.rank {
                Some(must_be(key, "<= "@ + schema.maximum->0.label@))
            } else {
                None
            },
        },
        _ => None,
    }
}

/// What is wrong with the length of a string or an array.
pub open spec fn length_fault(v: JsonView, key: Seq<char>, schema: PropertyView) -> Option<
    Seq<char>,
> {
    match length_of(v) {
        None => None,
        Some(len) => if schema.min_length is Some && len < schema.min_length->0 {
            Some(
                must_be(
                    key,
                    "at least "@ + decimal(schema.min_length->0 as nat) + " characters"@,
                ),
            )
        } else if schema.max_length is Some && len > schema.max_length->0 {
            Some(
                must_be(key, "at most "@ + decimal(schema.max_length->0 as nat) + " characters"@),
            )
        } else {
            None
        },
    }
}

/// What is wrong with a value: its type, then whether it is one of the allowed values, then
/// its size, then its length.
pub open spec fn value_fault(v: JsonView, key: Seq<char>, schema: PropertyView) -> Option<
    Seq<char>,
> {
    if !is_of_type(v, schema.property_type) {
        Some(must_be(key, type_label(schema.property_type) + ", got "@ + kind_of(v)))
    } else if schema.enum_values is Some && !is_allowed(schema.enum_values->0, v) {
        Some(
            must_be(key, "one of: "@ + join(value_texts(schema.enum_values->0), ", "@)),
        )
    } else if bound_fault(v, key, schema) is Some {
        bound_fault(v, key, schema)
    } else {
        length_fault(v, key, schema)
    }
}

fn allowed(values: &Vec<Json>, v: &Json) -> (r: bool)
    ensures
        r == is_allowed(items_view(values@), v@),
{
    let ghost all = items_view(values@);
    let mut i: usize = 0;
    while i < values.len()
        invariant
            i <= values@.len(),
            all == items_view(values@),
            forall|k: int| 0 <= k < i ==> !same_json(#[trigger] all[k], v@),
        decreases values@.len() - i,
    {
        assert(all[i as int] == values@[i as int]@);
        if values[i].same_as(v) {
            return true;
        }
        i = i + 1;
    }
    false
}

fn texts_of(values: &Vec<Json>) -> (r: Vec<String>)
    ensures
        views(r@) == value_texts(items_view(values@)),
{
    let ghost all = value_texts(items_view(values@));
    let mut r: Vec<String> = Vec::new();
    let mut i: usize = 0;
    while i < values.len()
        invariant
            i <= values@.len(),
            all == value_texts(items_view(values@)),
            views(r@) == all.take(i as int),
        decreases values@.len() - i,
    {
        let ghost before = r@;
        let t = values[i].to_text();
        r.push(t);
        assert(views(r@) =~= views(before).push(t@));
        i = i + 1;
    }
    assert(all.take(all.len() as int) =~= all);
    r
}

fn check_bounds(value: &Json, key: &str, schema: &ToolInputProperty) -> (r: Option<String>)
    ensures
        crate::types::optional_text(r) == bound_fault(value@, key@, schema@),
{
    match value {
        Json::Number(n) => match n.rank() {
            None => None,
            Some(rank) => {
                if let Some(min) = &schema.minimum {
                    if rank < min.rank {
                        let mut what = String::from_str(">= ");
                        what.append(min.label.as_str());
                        return Some(must(key, what.as_str()));
                    }
                }
                if let Some(max) = &schema.maximum {
                    if rank > max.rank {
                        let mut what = String::from_str("<= ");
                        what.append(max.label.as_str());
                        return Some(must(key, what.as_str()));
                    }
                }
                None
            },
        },
        _ => None,
    }
}

fn check_length(value: &Json, key: &str, schema: &ToolInputProperty) -> (r: Option<String>)
    ensures
        crate::types::optional_text(r) == length_fault(value@, key@, schema@),
{
    let len: usize = match value {
        Json::String(s) => s.as_str().unicode_len(),
        Json::Array(items) => {
            proof {
                lemma_array_view(*items);
            }
            items.len()
        },
        _ => return None,
    };
    if let Some(min) = schema.min_length {
        if len < min {
            let mut what = String::from_str("at least ");
            push_decimal(&mut what, min as u64);
            what.append(" characters");
            return Some(must(key, what.as_str()));
        }
    }
    if let Some(max) = schema.max_length {
        if len > max {
            let mut what = String::from_str("at most ");
            push_decimal(&mut what, max as u64);
            what.append(" characters");
            return Some(must(key, what.as_str()));
        }
    }
    None
}

/// What is wrong with a value, if anything.
pub fn validate_type(value: &Json, key: &str, schema: &ToolInputProperty) -> (r: Option<String>)
    ensures
        crate::types::optional_text(r) == value_fault(value@, key@, schema@),
{
    if !fits_type(value, schema.property_type) {
        let mut what = String::from_str(name_of_type(schema.property_type));
        what.append(", got ");
        what.append(json_kind(value));
        return Some(must(key, what.as_str()));
    }
    if let Some(values) = &schema.enum_values {
        if !allowed(values, value) {
            let mut what = String::from_str("one of: ");
            what.append(join_strings(&texts_of(values), ", ").as_str());
            return Some(must(key, what.as_str()));
        }
    }
    let fault = check_bounds(value, key, schema);
    if fault.is_some() {
        return fault;
    }
    check_length(value, key, schema)
}

/// What is said of a required property: nothing where it is there.
pub open spec fn missing_message(m: Seq<(Seq<char>, JsonView)>, name: Seq<char>) -> Option<
    Seq<char>,
> {
    if member_index(m, name) is None {
        Some("Missing required property: "@ + name)
    } else {
        None
    }
}

/// What is said of a member: what is wrong with its value, and that it is unknown where the
/// schema has no such property and allows no other.
pub open spec fn member_message(schema: SchemaView, e: (Seq<char>, JsonView)) -> Option<Seq<char>> {
    match property_named(schema.properties, e.0) {
        Some(p) => value_fault(e.1, e.0, p),
        None => if schema.additional_properties == Some(false) {
            Some("Unknown property: "@ + e.0)
        } else {
            None
        },
    }
}

/// What is wrong with an input, in order: what is missing, then its members one by one.
pub open spec fn input_errors(input: JsonView, schema: SchemaView) -> Seq<Seq<char>> {
    match input {
        JsonView::Object(m) => (match schema.required {
            Some(required) => required.filter_map(|name: Seq<char>| missing_message(m, name)),
            None => Seq::empty(),
        }) + m.filter_map(|e: (Seq<char>, JsonView)| member_message(schema, e)),
        _ => seq!["Input must be a JSON object, got "@ + kind_of(input)],
    }
}

fn push_missing(errors: &mut Vec<String>, members: &Vec<(String, Json)>, required: &Vec<String>)
    ensures
        views(final(errors)@) == views(old(errors)@) + views(required@).filter_map(
            |name: Seq<char>| missing_message(members_view(members@), name),
        ),
{
    let ghost m = members_view(members@);
    let ghost all = views(required@);
    let ghost f = |name: Seq<char>| missing_message(m, name);
    let ghost start = views(errors@);
    let mut i: usize = 0;
    assert(all.take(0).filter_map(f) =~= Seq::<Seq<char>>::empty()) by {
        reveal_with_fuel(Seq::filter_map, 1);
    }
    assert(views(errors@) =~= start + all.take(0).filter_map(f));
    while i < required.len()
        invariant
            i <= required@.len(),
            m == members_view(members@),
            all == views(required@),
            f == |name: Seq<char>| missing_message(m, name),
            start == views(old(errors)@),
            views(errors@) == start + all.take(i as int).filter_map(f),
        decreases required@.len() - i,
    {
        let ghost before = errors@;
        proof {
            all.lemma_filter_map_take_succ(f, i as int);
            assert(all[i as int] == required@[i as int]@);
        }
        if crate::json::find_member(members, required[i].as_str()).is_none() {
            let mut e = String::from_str("Missing required property: ");
            e.append(required[i].as_str());
            errors.push(e);
            assert(views(errors@) =~= views(before).push(e@));
        }
        assert(views(errors@) =~= start + all.take(i + 1).filter_map(f));
        i = i + 1;
    }
    assert(all.take(all.len() as int) =~= all);
}

fn push_member_faults(
    errors: &mut Vec<String>,
    members: &Vec<(String, Json)>,
    schema: &ToolInputSchema,
)
    ensures
        views(final(errors)@) == views(old(errors)@) + members_view(members@).filter_map(
            |e: (Seq<char>, JsonView)| member_message(schema@, e),
        ),
{
    let ghost all = members_view(members@);
    let ghost f = |e: (Seq<char>, JsonView)| member_message(schema@, e);
    let ghost start = views(errors@);
    let mut i: usize = 0;
    assert(all.take(0).filter_map(f) =~= Seq::<Seq<char>>::empty()) by {
        reveal_with_fuel(Seq::filter_map, 1);
    }
    assert(views(errors@) =~= start + all.take(0).filter_map(f));
    while i < members.len()
        invariant
            i <= members@.len(),
            all == members_view(members@),
            f == |e: (Seq<char>, JsonView)| member_message(schema@, e),
            start == views(old(errors)@),
            views(errors@) == start + all.take(i as int).filter_map(f),
        decreases members@.len() - i,
    {
        let ghost before = errors@;
        proof {
            all.lemma_filter_map_take_succ(f, i as int);
            assert(all[i as int] == (members@[i as int].0@, members@[i as int].1@));
        }
        let key = members[i].0.as_str();
        match find_property(&schema.properties, key) {
            Some(p) => {
                if let Some(e) = validate_type(&members[i].1, key, p) {
                    errors.push(e);
                    assert(views(errors@) =~= views(before).push(e@));
                }
            },
            None => {
                let closed = match schema.additional_properties {
                    Some(false) => true,
                    _ => false,
                };
                if closed {
                    let mut e = String::from_str("Unknown property: ");
                    e.append(key);
                    errors.push(e);
                    assert(views(errors@) =~= views(before).push(e@));
                }
            },
        }
        assert(views(errors@) =~= start + all.take(i + 1).filter_map(f));
        i = i + 1;
    }
    assert(all.take(all.len() as int) =~= all);
}

/// Checks an input against a schema.
pub fn validate_input(input: &Json, schema: &ToolInputSchema) -> (r: ValidationErrors)
    ensures
        views(r.errors@) == input_errors(input@, schema@),
        r.valid == (input_errors(input@, schema@).len() == 0),
{
    let mut errors: Vec<String> = Vec::new();
    match input {
        Json::Object(members) => {
            proof {
                lemma_object_view(*members);
            }
            let ghost m = members_view(members@);
            assert(views(errors@) =~= Seq::<Seq<char>>::empty());
            if let Some(required) = &schema.required {
                push_missing(&mut errors, members, required);
            }
            let ghost first = match schema@.required {
                Some(required) => required.filter_map(
                    |name: Seq<char>| missing_message(m, name),
                ),
                None => Seq::empty(),
            };
            assert(views(errors@) =~= first);
            push_member_faults(&mut errors, members, schema);
        },
        _ => {
            let mut e = String::from_str("Input must be a JSON object, got ");
            e.append(json_kind(input));
            errors.push(e);
            assert(views(errors@) =~= seq![e@]);
        },
    }
    assert(views(errors@).len() == errors@.len());
    ValidationErrors::new(errors)
}

/// What is wrong with the shape of a schema.
pub open spec fn schema_errors(schema: JsonView) -> Seq<Seq<char>> {
    match schema {
        JsonView::Object(_) => {
            let bad_type = if string_in(field(schema, "type"@)) == Some("object"@) {
                Seq::empty()
            } else {
                seq!["Schema type must be 'object'"@]
            };
            let bad_properties = match field(schema, "properties"@) {
                Some(p) => if p is Object {
                    Seq::empty()
                } else {
                    seq!["Schema properties must be an object"@]
                },
                None => Seq::empty(),
            };
            let bad_required = match field(schema, "required"@) {
                Some(p) => if p is Array {
                    Seq::empty()
                } else {
                    seq!["Schema required must be an array"@]
                },
                None => Seq::empty(),
            };
            bad_type + bad_properties + bad_required
        },
        _ => seq!["Schema must be an object"@],
    }
}

/// Checks the shape of a schema itself.
pub fn validate_schema(schema: &Json) -> (r: ValidationErrors)
    ensures
        views(r.errors@) == schema_errors(schema@),
        r.valid == (schema_errors(schema@).len() == 0),
{
    let mut errors: Vec<String> = Vec::new();
    match schema {
        Json::Object(members) => {
            let type_ok = match schema.get_str("type") {
                Some(s) => same(s.as_str(), "object"),
                None => false,
            };
            if !type_ok {
                errors.push(String::from_str("Schema type must be 'object'"));
            }
            if let Some(p) = schema.get("properties") {
                match p {
                    Json::Object(_) => {},
                    _ => errors.push(String::from_str("Schema properties must be an object")),
                }
            }
            if let Some(p) = schema.get("required") {
                match p {
                    Json::Array(_) => {},
                    _ => errors.push(String::from_str("Schema required must be an array")),
                }
            }
        },
        _ => {
            errors.push(String::from_str("Schema must be an object"));
        },
    }
    assert(views(errors@) =~= schema_errors(schema@));
    assert(views(errors@).len() == errors@.len());
    ValidationErrors::new(errors)
}

// ---------------------------------------------------------------------------
// What is accepted
// ---------------------------------------------------------------------------

/// Every number, whole or not, is a number: under a property of this type it is accepted,
/// unless allowed values or bounds are given.
pub proof fn law_every_number_is_a_number(n: NumberView, key: Seq<char>, p: PropertyView)
    requires
        p.property_type == PropertyType::Number,
        p.enum_values is None,
        p.minimum is None,
        p.maximum is None,
    ensures
        value_fault(JsonView::Number(n), key, p) is None,
{
}

/// What is accepted as an integer is accepted as a number, whatever else is asked of it.
pub proof fn law_integers_are_numbers(v: JsonView, key: Seq<char>, p: PropertyView)
    requires
        p.property_type == PropertyType::Integer,
        value_fault(v, key, p) is None,
    ensures
        value_fault(v, key, PropertyView { property_type: PropertyType::Number, ..p }) is None,
{
}

/// A value is accepted exactly where it is of the kind that the property asks for (a whole
/// number being a number, too), is one of the allowed values where there are any, lies within
/// the bounds, which belong to the range, and is neither shorter nor longer than allowed.
pub proof fn law_accepted_values(v: JsonView, key: Seq<char>, p: PropertyView)
    ensures
        (value_fault(v, key, p) is None) == {
            &&& match v {
                JsonView::Null => p.property_type == PropertyType::Null,
                JsonView::Bool(_) => p.property_type == PropertyType::Boolean,
                JsonView::Number(NumberView::Float(_)) => p.property_type == PropertyType::Number,
                JsonView::Number(_) => p.property_type == PropertyType::Number || p.property_type
                    == PropertyType::Integer,
                JsonView::String(_) => p.property_type == PropertyType::String,
                JsonView::Array(_) => p.property_type == PropertyType::Array,
                JsonView::Object(_) => p.property_type == PropertyType::Object,
            }
            &&& p.enum_values is Some ==> exists|i: int|
                0 <= i < p.enum_values->0.len() && same_json(#[trigger] p.enum_values->0[i], v)
            &&& match v {
                JsonView::Number(n) => number_rank(n) is Some ==> (p.minimum is Some ==> p.minimum->0.rank
                    <= number_rank(n)->0) && (p.maximum is Some ==> number_rank(n)->0
                    <= p.maximum->0.rank),
                JsonView::String(s) => (p.min_length is Some ==> p.min_length->0 <= s.len()) && (
                p.max_length is Some ==> s.len() <= p.max_length->0),
                JsonView::Array(s) => (p.min_length is Some ==> p.min_length->0 <= s.len()) && (
                p.max_length is Some ==> s.len() <= p.max_length->0),
                _ => true,
            }
        },
{
}

/// What is said of a value names the property, and what it was where it is of another kind.
pub proof fn law_faults_name_the_property(v: JsonView, key: Seq<char>, p: PropertyView)
    requires
        value_fault(v, key, p) is Some,
    ensures
        ("Property '"@ + key + "' must be "@).is_prefix_of(value_fault(v, key, p)->0),
{
    let head = "Property '"@ + key + "' must be "@;
    let m = value_fault(v, key, p)->0;
    assert forall|what: Seq<char>| head.is_prefix_of(#[trigger] must_be(key, what)) by {
        assert(head =~= must_be(key, what).take(head.len() as int));
    }
}

/// An input is accepted exactly where it is an object that has every required property, whose
/// known properties are all accepted and which has no others where none are allowed.
pub proof fn law_accepted_inputs(input: JsonView, schema: SchemaView)
    ensures
        (input_errors(input, schema).len() == 0) == (input is Object && ({
            let m = input->Object_0;
            &&& schema.required is Some ==> forall|i: int|
                0 <= i < schema.required->0.len() ==> member_index(
                    m,
                    #[trigger] schema.required->0[i],
                ) is Some
            &&& forall|i: int|
                0 <= i < m.len() ==> match property_named(
                    schema.properties,
                    (#[trigger] m[i]).0,
                ) {
                    Some(p) => value_fault(m[i].1, m[i].0, p) is None,
                    None => schema.additional_properties != Some(false),
                }
        })),
{
    if let JsonView::Object(m) = input {
        let f = |e: (Seq<char>, JsonView)| member_message(schema, e);
        let g = |name: Seq<char>| missing_message(m, name);
        crate::lists::law_none_picked(m, f);
        assert((forall|i: int| 0 <= i < m.len() ==> f(#[trigger] m[i]) is None) == (forall|i: int|
            0 <= i < m.len() ==> match property_named(schema.properties, (#[trigger] m[i]).0) {
                Some(p) => value_fault(m[i].1, m[i].0, p) is None,
                None => schema.additional_properties != Some(false),
            })) by {
            if forall|i: int| 0 <= i < m.len() ==> f(#[trigger] m[i]) is None {
                assert forall|i: int| 0 <= i < m.len() implies match property_named(
                    schema.properties,
                    (#[trigger] m[i]).0,
                ) {
                    Some(p) => value_fault(m[i].1, m[i].0, p) is None,
                    None => schema.additional_properties != Some(false),
                } by {
                    assert(f(m[i]) is None);
                }
            }
        }
        if let Some(required) = schema.required {
            crate::lists::law_none_picked(required, g);
            if forall|i: int| 0 <= i < required.len() ==> g(#[trigger] required[i]) is None {
                assert forall|i: int| 0 <= i < required.len() implies member_index(
                    m,
                    #[trigger] required[i],
                ) is Some by {
                    assert(g(required[i]) is None);
                }
            }
        }
    }
}

/// Every required property that is missing is told.
pub proof fn law_missing_properties_are_told(
    m: Seq<(Seq<char>, JsonView)>,
    schema: SchemaView,
    i: int,
)
    requires
        schema.required is Some,
        0 <= i < schema.required->0.len(),
        member_index(m, schema.required->0[i]) is None,
    ensures
        input_errors(JsonView::Object(m), schema).contains(
            "Missing required property: "@ + schema.required->0[i],
        ),
{
    let required = schema.required->0;
    let g = |name: Seq<char>| missing_message(m, name);
    let y = "Missing required property: "@ + required[i];
    crate::lists::law_picked(required, g, y);
    assert(g(required[i]) == Some(y));
    let a = required.filter_map(g);
    let k = choose|k: int| 0 <= k < a.len() && a[k] == y;
    assert(input_errors(JsonView::Object(m), schema)[k] == y);
}

/// A schema is in order exactly where it is an object of the type `object` whose properties,
/// if any, are an object and whose required names, if any, are a list.
pub proof fn law_schemas_in_order(schema: JsonView)
    ensures
        (schema_errors(schema).len() == 0) == {
            &&& schema is Object
            &&& string_in(field(schema, "type"@)) == Some("object"@)
            &&& field(schema, "properties"@) is Some ==> field(schema, "properties"@)->0 is Object
            &&& field(schema, "required"@) is Some ==> field(schema, "required"@)->0 is Array
        },
{
}

} // verus!
