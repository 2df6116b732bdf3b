//! Puts right what language models often get wrong in tool arguments, as far as the schema
//! leaves no doubt: an optional argument given as `null` or as an empty text, white space
//! around texts, an array written as its JSON text or as a lone item.
use vstd::prelude::*;

use crate::json::items_view;
use crate::json::lemma_array_view;
use crate::json::lemma_object_view;
use crate::json::members_view;
use crate::json::Json;
use crate::json::JsonView;
use crate::json_text::json_parsed;
use crate::lists::law_kept;
use crate::text::is_white;
use crate::text::law_trim;
use crate::text::trim;
use crate::text::trim_end;
use crate::text::trim_start;
use crate::text::trim_str;
use crate::text::views;
use crate::types::find_property_at;
use crate::types::optional_texts;
use crate::types::properties_view;
use crate::types::property_index;
use crate::types::AdditionalView;
use crate::types::PropertyType;
use crate::types::PropertyView;
use crate::types::SchemaView;
use crate::types::ToolAdditionalProperties;
use crate::types::ToolInputProperty;
use crate::types::ToolInputSchema;

verus! {

/// A text without the white space at both ends; any other value as it is.
pub open spec fn trimmed_value(v: JsonView) -> JsonView {
    match v {
        JsonView::String(s) => JsonView::String(trim(s)),
        _ => v,
    }
}

/// The value says nothing: `null` or an empty text.
pub open spec fn says_nothing(v: JsonView) -> bool {
    v is Null || (v is String && v->String_0.len() == 0)
}

/// The members that are kept: where the schema says what is required, one that says nothing
/// is kept only if it is required.
pub open spec fn kept_members(
    m: Seq<(Seq<char>, JsonView)>,
    required: Option<Seq<Seq<char>>>,
) -> Seq<(Seq<char>, JsonView)> {
    match required {
        Some(names) => m.filter(
            |e: (Seq<char>, JsonView)| names.contains(e.0) || !says_nothing(e.1),
        ),
        None => m,
    }
}

/// The array that a text stands for where one is asked for, given what parsing the text as
/// JSON gives: a text that is the JSON of an array stands for it, and any other text for the
/// array of itself.
pub open spec fn text_as_array(
    text: Seq<char>,
    parsed: Result<JsonView, Seq<char>>,
) -> JsonView {
    match parsed {
        Ok(JsonView::Array(items)) => JsonView::Array(items),
        _ => JsonView::Array(seq![JsonView::String(text)]),
    }
}

/// An array where one is asked for.
pub open spec fn as_array(v: JsonView) -> JsonView {
    match v {
        JsonView::String(t) => text_as_array(t, json_parsed(t)),
        _ => v,
    }
}

/// The first text among the values of the members.
pub open spec fn first_text(m: Seq<(Seq<char>, JsonView)>) -> Option<Seq<char>>
    decreases m.len(),
{
    if m.len() == 0 {
        None
    } else {
        match first_text(m.drop_last()) {
            Some(s) => Some(s),
            None => match m.last().1 {
                JsonView::String(s) => Some(s),
                _ => None,
            },
        }
    }
}

/// A text where one is asked for: an object stands for the first text in it.
pub open spec fn as_text(v: JsonView) -> JsonView {
    match v {
        JsonView::Object(m) => match first_text(m) {
            Some(s) => JsonView::String(s),
            None => v,
        },
        _ => v,
    }
}

/// An item of an array, before it is normalized by the schema of the items.
pub open spec fn as_item(v: JsonView, t: PropertyType) -> JsonView {
    if t == PropertyType::String {
        as_text(v)
    } else {
        v
    }
}

/// A value, normalized by its schema.
pub open spec fn normal_value(v: JsonView, p: PropertyView) -> JsonView
    decreases p,
{
    match p.property_type {
        PropertyType::Array => match (p.items, as_array(v)) {
            (Some(items), JsonView::Array(xs)) => JsonView::Array(
                Seq::new(
                    xs.len(),
                    |i: int| normal_value(as_item(xs[i], items.property_type), *items),
                ),
            ),
            (_, w) => w,
        },
        PropertyType::Object => match v {
            JsonView::Object(m) => {
                let named = match p.properties {
                    Some(props) => normal_members(m, props, p.required),
                    None => m,
                };
                match p.additional_properties {
                    Some(AdditionalView::Schema(s)) => JsonView::Object(
                        Seq::new(
                            named.len(),
                            |i: int|
                                if p.properties is Some && property_index(
                                    p.properties->0,
                                    named[i].0,
                                ) is Some {
                                    named[i]
                                } else {
                                    (named[i].0, normal_value(named[i].1, *s))
                                },
                        ),
                    ),
                    _ => JsonView::Object(named),
                }
            },
            _ => v,
        },
        PropertyType::String => trimmed_value(v),
        _ => v,
    }
}

/// The members of an object, normalized by the schemas of its properties: what says nothing
/// and is not required goes, texts are trimmed, and each value that has a schema is
/// normalized by it.
pub open spec fn normal_members(
    m: Seq<(Seq<char>, JsonView)>,
    props: Seq<(Seq<char>, PropertyView)>,
    required: Option<Seq<Seq<char>>>,
) -> Seq<(Seq<char>, JsonView)>
    decreases props,
{
    let kept = kept_members(m, required);
    Seq::new(
        kept.len(),
        |i: int|
            (
                kept[i].0,
                match property_index(props, kept[i].0) {
                    Some(k) => if 0 <= k < props.len() {
                        normal_value(trimmed_value(kept[i].1), props[k].1)
                    } else {
                        trimmed_value(kept[i].1)
                    },
                    None => trimmed_value(kept[i].1),
                },
            ),
    )
}

/// Arguments, normalized by the schema of a tool; what is no object is left alone.
pub open spec fn normal_args(args: JsonView, schema: SchemaView) -> JsonView {
    match args {
        JsonView::Object(m) => JsonView::Object(
            normal_members(m, schema.properties, schema.required),
        ),
        _ => args,
    }
}

fn trim_value(v: Json) -> (r: Json)
    ensures
        r@ == trimmed_value(v@),
{
    match v {
        Json::String(s) => Json::String(trim_str(s.as_str())),
        _ => v,
    }
}

fn empty_value(v: &Json) -> (r: bool)
    ensures
        r == says_nothing(v@),
{
    match v {
        Json::Null => true,
        Json::String(s) => s.as_str().unicode_len() == 0,
        _ => false,
    }
}

fn keep_members(m: Vec<(String, Json)>, required: &Option<Vec<String>>) -> (r: Vec<(String, Json)>)
    ensures
        members_view(r@) == kept_members(members_view(m@), optional_texts(*required)),
{
    let names = match required {
        None => return m,
        Some(names) => names,
    };
    let ghost all = members_view(m@);
    let ghost nv = views(names@);
    let ghost pred = |e: (Seq<char>, JsonView)| nv.contains(e.0) || !says_nothing(e.1);
    let ghost source = m@;
    let mut out: Vec<(String, Json)> = Vec::new();
    assert(members_view(out@) =~= all.take(0).filter(pred)) by {
        reveal(Seq::filter);
    }
    for member in it: m
        invariant
            it.seq() == source,
            all == members_view(source),
            nv == views(names@),
            pred == |e: (Seq<char>, JsonView)| nv.contains(e.0) || !says_nothing(e.1),
            members_view(out@) == all.take(it.index()).filter(pred),
    {
        let ghost i = it.index();
        let ghost before = out@;
        proof {
            assert(all.take(i + 1) =~= all.take(i).push(all[i]));
            all.take(i).lemma_filter_push(all[i], pred);
            assert(all[i] == (member.0@, member.1@));
        }
        if crate::text::listed(names, member.0.as_str()) || !empty_value(&member.1) {
            let ghost e = (member.0@, member.1@);
            out.push(member);
            assert(members_view(out@) =~= members_view(before).push(e));
        }
    }
    assert(all.take(all.len() as int) =~= all);
    out
}

fn find_first_text(m: &Vec<(String, Json)>) -> (r: Option<String>)
    ensures
        crate::types::optional_text(r) == first_text(members_view(m@)),
{
    let ghost all = members_view(m@);
    let mut i: usize = 0;
    while i < m.len()
        invariant
            i <= m@.len(),
            all == members_view(m@),
            first_text(all.take(i as int)) is None,
        decreases m@.len() - i,
    {
        assert(all.take(i + 1).drop_last() =~= all.take(i as int));
        assert(all.take(i + 1).last() == (m@[i as int].0@, m@[i as int].1@));
        if let Json::String(s) = &m[i].1 {
            proof {
                lemma_first_text_prefix(all, i + 1);
            }
            return Some(s.clone());
        }
        i = i + 1;
    }
    assert(all.take(all.len() as int) =~= all);
    None
}

proof fn lemma_first_text_prefix(m: Seq<(Seq<char>, JsonView)>, n: int)
    requires
        0 <= n <= m.len(),
        first_text(m.take(n)) is Some,
    ensures
        first_text(m) == first_text(m.take(n)),
    decreases m.len() - n,
{
    if n < m.len() {
        assert(m.take(n + 1).drop_last() =~= m.take(n));
        lemma_first_text_prefix(m, n + 1);
    } else {
        assert(m.take(n) =~= m);
    }
}

fn make_item(v: Json, t: PropertyType) -> (r: Json)
    ensures
        r@ == as_item(v@, t),
{
    if t != PropertyType::String {
        return v;
    }
    match v {
        Json::Object(m) => {
            proof {
                lemma_object_view(m);
            }
            match find_first_text(&m) {
                Some(s) => Json::String(s),
                None => Json::Object(m),
            }
        },
        _ => v,
    }
}

/// The array that a text stands for where one is asked for, given what parsing the text as
/// JSON gave: the array that it denotes, or one that holds the text.
pub fn array_of_text(text: String, parsed: Result<Json, String>) -> (r: Json)
    ensures
        r@ == text_as_array(
            text@,
            match parsed {
                Ok(v) => Ok(v@),
                Err(e) => Err(e@),
            },
        ),
{
    match parsed {
        Ok(Json::Array(items)) => {
            proof {
                lemma_array_view(items);
            }
            return Json::Array(items);
        },
        _ => {},
    }
    let mut items: Vec<Json> = Vec::new();
    let ghost tv = text@;
    items.push(Json::String(text));
    proof {
        lemma_array_view(items);
        assert(items_view(items@) =~= seq![JsonView::String(tv)]);
    }
    Json::Array(items)
}

fn make_array(v: Json) -> (r: Json)
    ensures
        r@ == as_array(v@),
{
    match v {
        Json::String(t) => {
            let parsed = Json::parse(t.as_str());
            array_of_text(t, parsed)
        },
        _ => v,
    }
}

/// A value, normalized by its schema.
fn normalize_property(value: Json, schema: &ToolInputProperty) -> (r: Json)
    ensures
        r@ == normal_value(value@, schema@),
    decreases schema@, 0nat,
{
    match schema.property_type {
        PropertyType::Array => {
            let w = make_array(value);
            let items = match &schema.items {
                Some(items) => items,
                None => return w,
            };
            match w {
                Json::Array(xs) => {
                    proof {
                        lemma_array_view(xs);
                    }
                    let ghost all = items_view(xs@);
                    let ghost source = xs@;
                    let ghost want = normal_value(value@, schema@)->Array_0;
                    let mut out: Vec<Json> = Vec::new();
                    for x in it: xs
                        invariant
                            it.seq() == source,
                            all == items_view(source),
                            schema.items == Some(*items),
                            want == Seq::new(
                                all.len(),
                                |i: int|
                                    normal_value(
                                        as_item(all[i], items@.property_type),
                                        items@,
                                    ),
                            ),
                            items_view(out@) == want.take(it.index()),
                    {
                        let ghost i = it.index();
                        let ghost before = out@;
                        assert(all[i] == x@);
                        let item = make_item(x, items.property_type);
                        assert(decreases_to!(schema@ => schema@.items->0));
                        let n = normalize_property(item, items);
                        out.push(n);
                        assert(items_view(out@) =~= items_view(before).push(n@));
                        assert(want.take(i + 1) =~= want.take(i).push(want[i]));
                    }
                    assert(want.take(want.len() as int) =~= want);
                    proof {
                        lemma_array_view(out);
                    }
                    Json::Array(out)
                },
                _ => w,
            }
        },
        PropertyType::Object => {
            match value {
                Json::Object(m) => {
                    proof {
                        lemma_object_view(m);
                        crate::types::lemma_nested_properties(*schema);
                    }
                    let named = match &schema.properties {
                        Some(props) => {
                            assert(decreases_to!(schema@ => schema@.properties->0));
                            normalize_object(m, props, &schema.required)
                        },
                        None => m,
                    };
                    match &schema.additional_properties {
                        Some(ToolAdditionalProperties::Schema(s)) => {
                            let ghost all = members_view(named@);
                            let ghost source = named@;
                            let ghost want = normal_value(value@, schema@)->Object_0;
                            let mut out: Vec<(String, Json)> = Vec::new();
                            for member in it: named
                                invariant
                                    it.seq() == source,
                                    all == members_view(source),
                                    schema.additional_properties == Some(
                                        ToolAdditionalProperties::Schema(*s),
                                    ),
                                    schema.properties is Some ==> schema@.properties == Some(
                                        properties_view(schema.properties->0@),
                                    ),
                                    want == Seq::new(
                                        all.len(),
                                        |i: int|
                                            if schema@.properties is Some && property_index(
                                                schema@.properties->0,
                                                all[i].0,
                                            ) is Some {
                                                all[i]
                                            } else {
                                                (all[i].0, normal_value(all[i].1, s@))
                                            },
                                    ),
                                    members_view(out@) == want.take(it.index()),
                            {
                                let ghost i = it.index();
                                let ghost before = out@;
                                let (key, child) = member;
                                assert(all[i] == (key@, child@));
                                let declared = match &schema.properties {
                                    Some(props) => crate::types::find_property(
                                        props,
                                        key.as_str(),
                                    ).is_some(),
                                    None => false,
                                };
                                assert(decreases_to!(schema@
                                    => schema@.additional_properties->0->Schema_0));
                                let n = if declared {
                                    child
                                } else {
                                    normalize_property(child, s)
                                };
                                let ghost e = (key@, n@);
                                out.push((key, n));
                                assert(members_view(out@) =~= members_view(before).push(e));
                                assert(want.take(i + 1) =~= want.take(i).push(want[i]));
                            }
                            assert(want.take(want.len() as int) =~= want);
                            proof {
                                lemma_object_view(out);
                            }
                            Json::Object(out)
                        },
                        _ => {
                            proof {
                                lemma_object_view(named);
                            }
                            Json::Object(named)
                        },
                    }
                },
                _ => value,
            }
        },
        PropertyType::String => trim_value(value),
        _ => value,
    }
}

/// The members of an object, normalized by the schemas of its properties.
fn normalize_object(
    m: Vec<(String, Json)>,
    props: &Vec<(String, ToolInputProperty)>,
    required: &Option<Vec<String>>,
) -> (r: Vec<(String, Json)>)
    ensures
        members_view(r@) == normal_members(
            members_view(m@),
            properties_view(props@),
            optional_texts(*required),
        ),
    decreases properties_view(props@), 1nat,
{
    let ghost pv = properties_view(props@);
    let ghost want = normal_members(members_view(m@), pv, optional_texts(*required));
    let kept = keep_members(m, required);
    let ghost all = members_view(kept@);
    let ghost source = kept@;
    let mut out: Vec<(String, Json)> = Vec::new();
    for member in it: kept
        invariant
            it.seq() == source,
            all == members_view(source),
            pv == properties_view(props@),
            want.len() == all.len(),
            forall|i: int|
                0 <= i < all.len() ==> #[trigger] want[i] == (
                    all[i].0,
                    match property_index(pv, all[i].0) {
                        Some(k) => if 0 <= k < pv.len() {
                            normal_value(trimmed_value(all[i].1), pv[k].1)
                        } else {
                            trimmed_value(all[i].1)
                        },
                        None => trimmed_value(all[i].1),
                    },
                ),
            members_view(out@) == want.take(it.index()),
    {
        let ghost i = it.index();
        let ghost before = out@;
        let (key, value) = member;
        assert(all[i] == (key@, value@));
        let t = trim_value(value);
        let n = match find_property_at(props, key.as_str()) {
            Some(k) => {
                assert(pv[k as int] == (props@[k as int].0@, props@[k as int].1@));
                assert(decreases_to!(pv => pv[k as int]));
                assert(decreases_to!(pv[k as int] => pv[k as int].1));
                normalize_property(t, &props[k].1)
            },
            None => t,
        };
        let ghost e = (key@, n@);
        out.push((key, n));
        assert(members_view(out@) =~= members_view(before).push(e));
        assert(want.take(i + 1) =~= want.take(i).push(want[i]));
    }
    assert(want.take(want.len() as int) =~= want);
    out
}

/// Normalizes arguments by the schema of a tool.
pub fn normalize_llm_args(args: &mut Json, schema: &ToolInputSchema)
    ensures
        final(args)@ == normal_args(old(args)@, schema@),
{
    let mut taken = Json::Null;
    std::mem::swap(args, &mut taken);
    *args = match taken {
        Json::Object(m) => {
            proof {
                lemma_object_view(m);
            }
            let out = normalize_object(m, &schema.properties, &schema.required);
            proof {
                lemma_object_view(out);
            }
            Json::Object(out)
        },
        other => other,
    };
}

// ---------------------------------------------------------------------------
// What holds of normalized arguments
// ---------------------------------------------------------------------------

/// A required argument that was given is there, whatever it says.
pub proof fn law_required_arguments_stay(
    m: Seq<(Seq<char>, JsonView)>,
    props: Seq<(Seq<char>, PropertyView)>,
    names: Seq<Seq<char>>,
    i: int,
)
    requires
        0 <= i < m.len(),
        names.contains(m[i].0),
    ensures
        exists|j: int|
            0 <= j < normal_members(m, props, Some(names)).len() && (#[trigger] normal_members(
                m,
                props,
                Some(names),
            )[j]).0 == m[i].0,
{
    let kept = kept_members(m, Some(names));
    let p = |e: (Seq<char>, JsonView)| names.contains(e.0) || !says_nothing(e.1);
    m.lemma_filter_contains(p, i);
    assert(kept.contains(m[i]));
    let j = choose|j: int| 0 <= j < kept.len() && kept[j] == m[i];
    assert(normal_members(m, props, Some(names))[j].0 == m[i].0);
}

/// The value needs nothing put right, by a schema that says nothing of what is in it.
pub open spec fn is_plain(v: JsonView, p: Option<PropertyView>) -> bool {
    &&& trimmed_value(v) == v
    &&& p matches Some(p) ==> {
        &&& p.items is None
        &&& p.properties is None
        &&& p.additional_properties is None
        &&& p.property_type is Array ==> !(v is String)
    }
}

/// The property that the schema has for a name.
pub open spec fn property_for(props: Seq<(Seq<char>, PropertyView)>, name: Seq<char>) -> Option<
    PropertyView,
> {
    match property_index(props, name) {
        Some(k) => if 0 <= k < props.len() {
            Some(props[k].1)
        } else {
            None
        },
        None => None,
    }
}

/// Arguments that need nothing put right stay as they are.
pub proof fn law_plain_arguments_stay(m: Seq<(Seq<char>, JsonView)>, schema: SchemaView)
    requires
        forall|i: int|
            0 <= i < m.len() ==> is_plain(
                (#[trigger] m[i]).1,
                property_for(schema.properties, m[i].0),
            ),
        schema.required matches Some(names) ==> forall|i: int|
            0 <= i < m.len() ==> names.contains((#[trigger] m[i]).0) || !says_nothing(m[i].1),
    ensures
        normal_args(JsonView::Object(m), schema) == JsonView::Object(m),
{
    let kept = kept_members(m, schema.required);
    assert(kept =~= m) by {
        match schema.required {
            Some(names) => {
                lemma_all_kept(
                    m,
                    |e: (Seq<char>, JsonView)| names.contains(e.0) || !says_nothing(e.1),
                );
            },
            None => {},
        }
    }
    let r = normal_members(m, schema.properties, schema.required);
    assert forall|i: int| 0 <= i < m.len() implies #[trigger] r[i] == m[i] by {
        let p = property_for(schema.properties, m[i].0);
        assert(is_plain(m[i].1, p));
    }
    assert(r =~= m);
}

/// Nothing goes from a list of which everything is kept.
proof fn lemma_all_kept(
    m: Seq<(Seq<char>, JsonView)>,
    p: spec_fn((Seq<char>, JsonView)) -> bool,
)
    requires
        forall|i: int| 0 <= i < m.len() ==> p(#[trigger] m[i]),
    ensures
        m.filter(p) == m,
    decreases m.len(),
{
    reveal(Seq::filter);
    if m.len() > 0 {
        let rest = m.drop_last();
        assert forall|i: int| 0 <= i < rest.len() implies p(#[trigger] rest[i]) by {
            assert(rest[i] == m[i]);
        }
        lemma_all_kept(rest, p);
        assert(p(m[m.len() - 1]));
        assert(rest.push(m.last()) =~= m);
    }
}

/// An optional argument that was given leaves exactly where it is null or an empty text: of the
/// names that are not required, the result has those with something said under them.
pub proof fn law_optional_arguments(
    m: Seq<(Seq<char>, JsonView)>,
    props: Seq<(Seq<char>, PropertyView)>,
    names: Seq<Seq<char>>,
    name: Seq<char>,
)
    requires
        !names.contains(name),
    ensures
        (exists|j: int|
            0 <= j < normal_members(m, props, Some(names)).len() && (#[trigger] normal_members(
                m,
                props,
                Some(names),
            )[j]).0 == name) <==> exists|i: int|
            0 <= i < m.len() && (#[trigger] m[i]).0 == name && m[i].1 != JsonView::Null && m[i].1
                != JsonView::String(Seq::empty()),
{
    let p = |e: (Seq<char>, JsonView)| names.contains(e.0) || !says_nothing(e.1);
    let kept = m.filter(p);
    let r = normal_members(m, props, Some(names));
    assert(kept == kept_members(m, Some(names)));
    if exists|j: int| 0 <= j < r.len() && (#[trigger] r[j]).0 == name {
        let j = choose|j: int| 0 <= j < r.len() && (#[trigger] r[j]).0 == name;
        law_kept(m, p, kept[j]);
        assert(kept.contains(kept[j]));
        let i = choose|i: int| 0 <= i < m.len() && m[i] == kept[j];
        assert(m[i].0 == name);
        assert(!says_nothing(m[i].1));
    }
    if exists|i: int|
        0 <= i < m.len() && (#[trigger] m[i]).0 == name && m[i].1 != JsonView::Null && m[i].1
            != JsonView::String(Seq::empty()) {
        let i = choose|i: int|
            0 <= i < m.len() && (#[trigger] m[i]).0 == name && m[i].1 != JsonView::Null && m[i].1
                != JsonView::String(Seq::empty());
        if let JsonView::String(s) = m[i].1 {
            if s.len() == 0 {
                assert(s =~= Seq::<char>::empty());
            }
        }
        assert(p(m[i]));
        assert(m.contains(m[i]));
        law_kept(m, p, m[i]);
        let j = choose|j: int| 0 <= j < kept.len() && kept[j] == m[i];
        assert(r[j].0 == name);
    }
}

/// Where nothing is said of what is required, every argument stays in its place. Texts are
/// trimmed, whether or not the schema knows them; numbers, booleans and null stay as they are.
pub proof fn law_arguments_in_place(m: Seq<(Seq<char>, JsonView)>, schema: SchemaView, i: int)
    requires
        schema.required is None,
        0 <= i < m.len(),
    ensures
        ({
            let r = normal_args(JsonView::Object(m), schema)->Object_0;
            let p = property_for(schema.properties, m[i].0);
            &&& normal_args(JsonView::Object(m), schema) is Object
            &&& r.len() == m.len()
            &&& r[i].0 == m[i].0
            &&& m[i].1 is Number || m[i].1 is Bool || m[i].1 is Null ==> r[i].1 == m[i].1
            &&& m[i].1 is String && (p is None || p->0.property_type != PropertyType::Array)
                ==> r[i].1 == JsonView::String(trim(m[i].1->String_0))
        }),
{
    if let JsonView::String(s) = m[i].1 {
        lemma_trim_twice(s);
    }
}

proof fn lemma_trim_twice(s: Seq<char>)
    ensures
        trim(trim(s)) == trim(s),
{
    lemma_trim_end_ends(s);
    lemma_trim_start_starts(trim_end(s));
    let t = trim(s);
    if t.len() > 0 {
        law_trim(Seq::empty(), t, Seq::empty());
        assert(Seq::<char>::empty() + t + Seq::<char>::empty() =~= t);
    }
}

proof fn lemma_trim_end_ends(s: Seq<char>)
    ensures
        trim_end(s).len() > 0 ==> !is_white(trim_end(s).last()),
    decreases s.len(),
{
    if s.len() > 0 && is_white(s.last()) {
        lemma_trim_end_ends(s.drop_last());
    }
}

proof fn lemma_trim_start_starts(s: Seq<char>)
    ensures
        trim_start(s).len() > 0 ==> !is_white(trim_start(s)[0]) && trim_start(s).last() == s.last(),
    decreases s.len(),
{
    if s.len() > 0 && is_white(s[0]) {
        lemma_trim_start_starts(s.drop_first());
        if trim_start(s.drop_first()).len() > 0 {
            assert(s.drop_first().len() > 0);
            assert(s.drop_first().last() == s.last());
        }
    }
}

/// A text where the schema wants a list is the list that it denotes; where it denotes none, it is
/// a list of that text alone.
pub proof fn law_text_becomes_a_list(m: Seq<(Seq<char>, JsonView)>, schema: SchemaView, i: int)
    requires
        schema.required is None,
        0 <= i < m.len(),
        m[i].1 is String,
        property_for(schema.properties, m[i].0) matches Some(p) && p.property_type
            == PropertyType::Array && p.items is None,
    ensures
        ({
            let r = normal_args(JsonView::Object(m), schema)->Object_0;
            let t = trim(m[i].1->String_0);
            &&& json_parsed(t) matches Ok(JsonView::Array(items)) ==> r[i].1 == JsonView::Array(
                items,
            )
            &&& !(json_parsed(t) matches Ok(JsonView::Array(_))) ==> r[i].1 == JsonView::Array(
                seq![JsonView::String(t)],
            )
        }),
{
}

/// In a list of texts each item is trimmed, and an object in place of a text is the first text
/// that it holds.
pub proof fn law_items_of_a_list_of_texts(
    m: Seq<(Seq<char>, JsonView)>,
    schema: SchemaView,
    i: int,
    xs: Seq<JsonView>,
    x: int,
)
    requires
        schema.required is None,
        0 <= i < m.len(),
        m[i].1 == JsonView::Array(xs),
        0 <= x < xs.len(),
        property_for(schema.properties, m[i].0) matches Some(p) && p.property_type
            == PropertyType::Array && (p.items matches Some(items) && items.property_type
            == PropertyType::String),
    ensures
        normal_args(JsonView::Object(m), schema)->Object_0[i].1 is Array,
        ({
            let ys = normal_args(JsonView::Object(m), schema)->Object_0[i].1->Array_0;
            &&& ys.len() == xs.len()
            &&& xs[x] matches JsonView::String(s) ==> ys[x] == JsonView::String(trim(s))
            &&& xs[x] is Number ==> ys[x] == xs[x]
            &&& xs[x] is Object && xs[x]->Object_0.len() == 1 && xs[x]->Object_0[0].1 is String
                ==> ys[x] == JsonView::String(trim(xs[x]->Object_0[0].1->String_0))
        }),
{
    let p = property_for(schema.properties, m[i].0)->0;
    let items = p.items->0;
    let ys = normal_args(JsonView::Object(m), schema)->Object_0[i].1->Array_0;
    assert(normal_args(JsonView::Object(m), schema)->Object_0[i].1 == normal_value(
        trimmed_value(m[i].1),
        p,
    ));
    let w = as_item(xs[x], items.property_type);
    if let JsonView::Object(fields) = xs[x] {
        if fields.len() == 1 {
            reveal_with_fuel(first_text, 2);
            assert(fields.last() == fields[0]);
        }
    }
    assert(ys[x] == normal_value(w, *items));
    assert(normal_value(w, *items) == trimmed_value(w));
}

/// Arguments that are no object stay as they are.
pub proof fn law_other_arguments_stay(args: JsonView, schema: SchemaView)
    requires
        !(args is Object),
    ensures
        normal_args(args, schema) == args,
{
}

/// An object in the place of a text stands for the first text among its members; one without a
/// text stays, and so does whatever is no object.
pub proof fn law_object_becomes_a_text(m: Seq<(Seq<char>, JsonView)>, i: int, v: JsonView)
    ensures
        0 <= i < m.len() && (forall|j: int|
            0 <= j < i ==> !((#[trigger] m[j]).1 is String)) ==> (m[i].1 matches JsonView::String(s)
            ==> as_text(JsonView::Object(m)) == JsonView::String(s)),
        (forall|j: int| 0 <= j < m.len() ==> !((#[trigger] m[j]).1 is String)) ==> as_text(
            JsonView::Object(m),
        ) == JsonView::Object(m),
        !(v is Object) ==> as_text(v) == v,
{
    lemma_first_text(m, i);
}

proof fn lemma_first_text(m: Seq<(Seq<char>, JsonView)>, i: int)
    ensures
        0 <= i < m.len() && (forall|j: int|
            0 <= j < i ==> !((#[trigger] m[j]).1 is String)) ==> (m[i].1 matches JsonView::String(s)
            ==> first_text(m) == Some(s)),
        (forall|j: int| 0 <= j < m.len() ==> !((#[trigger] m[j]).1 is String)) ==> first_text(
            m,
        ) is None,
    decreases m.len(),
{
    if m.len() > 0 {
        let d = m.drop_last();
        lemma_first_text(d, i);
        assert forall|j: int| 0 <= j < d.len() implies d[j] == m[j] by {}
        if i == m.len() - 1 {
            lemma_first_text(d, 0);
        }
    }
}

} // verus!
