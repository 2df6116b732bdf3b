//! How the built-in tools are described.
use vstd::prelude::*;

use crate::json::build_object;
use crate::json::entry;
use crate::json::members_view;
use crate::json::object_of;
use crate::json::str_to_json;
use crate::json::texts_json;
use crate::json::texts_to_json;
use crate::json::Json;
use crate::json::JsonView;
use crate::text::before;
use crate::text::lemma_before_total;
use crate::text::lemma_before_transitive;
use crate::text::same;
use crate::text::str_before;
use crate::text::views;
use crate::types::properties_view;
use crate::types::tools_view;
use crate::types::NamespaceConfig;
use crate::types::NamespaceView;
use crate::types::PackageView;
use crate::types::PropertyType;
use crate::types::PropertyView;
use crate::types::SchemaType;
use crate::types::SchemaView;
use crate::types::Tool;
use crate::types::ToolInputProperty;
use crate::types::ToolInputSchema;
use crate::types::ToolPackage;
use crate::types::ToolView;

verus! {

// ---------------------------------------------------------------------------
// Schemas
// ---------------------------------------------------------------------------

/// Something that a tool takes: its name, its type and what it is for.
pub type Param = (&'static str, PropertyType, &'static str);

/// The model of a `Param`.
pub type ParamView = (Seq<char>, PropertyType, Seq<char>);

/// The models of what a tool takes.
pub open spec fn params_view(v: Seq<Param>) -> Seq<ParamView> {
    v.map_values(|p: Param| (p.0@, p.1, p.2@))
}

/// A property of which only the type and the purpose are said.
pub open spec fn plain_property(ty: PropertyType, description: Seq<char>) -> PropertyView {
    PropertyView {
        property_type: ty,
        description: Some(description),
        enum_values: None,
        minimum: None,
        maximum: None,
        min_length: None,
        max_length: None,
        items: None,
        properties: None,
        required: None,
        additional_properties: None,
    }
}

/// A property of which only the type and the purpose are said.
pub fn prop(ty: PropertyType, description: &str) -> (r: ToolInputProperty)
    ensures
        r@ == plain_property(ty, description@),
{
    let mut r = ToolInputProperty::of_type(ty);
    r.description = Some(String::from_str(description));
    r
}

/// The properties with one more, in the order of their names. One of that name is replaced.
pub open spec fn with_property(
    m: Seq<(Seq<char>, PropertyView)>,
    name: Seq<char>,
    p: PropertyView,
) -> Seq<(Seq<char>, PropertyView)>
    decreases m.len(),
{
    if m.len() == 0 || before(m.last().0, name) {
        m.push((name, p))
    } else if m.last().0 == name {
        m.drop_last().push((name, p))
    } else {
        with_property(m.drop_last(), name, p).push(m.last())
    }
}

/// Adds a property, in the order of their names. One of that name is replaced.
pub fn add_property(m: &mut Vec<(String, ToolInputProperty)>, name: &str, p: ToolInputProperty)
    ensures
        properties_view(final(m)@) == with_property(properties_view(old(m)@), name@, p@),
{
    let ghost all = properties_view(m@);
    let mut i: usize = m.len();
    assert(all.take(i as int) =~= all);
    assert(all.skip(i as int) =~= Seq::<(Seq<char>, PropertyView)>::empty());
    assert(with_property(all, name@, p@) =~= with_property(all, name@, p@) + all.skip(i as int));
    while i > 0 && str_before(name, m[i - 1].0.as_str())
        invariant
            i <= m@.len(),
            m@.len() == all.len(),
            all == properties_view(m@),
            with_property(all, name@, p@) == with_property(all.take(i as int), name@, p@)
                + all.skip(i as int),
        decreases i,
    {
        let ghost t = all.take(i as int);
        proof {
            assert(t.drop_last() =~= all.take(i - 1));
            assert(t.last() == all[i - 1]);
            assert(all[i - 1].0 == m@[i - 1].0@);
            lemma_before_total(name@, all[i - 1].0);
            assert(with_property(t, name@, p@) + all.skip(i as int) =~= with_property(
                t.drop_last(),
                name@,
                p@,
            ) + all.skip(i - 1));
        }
        i = i - 1;
    }
    let ghost t = all.take(i as int);
    proof {
        if i > 0 {
            assert(t.last() == all[i - 1]);
            assert(all[i - 1].0 == m@[i - 1].0@);
            lemma_before_total(name@, all[i - 1].0);
        }
    }
    let ghost given = p@;
    if i > 0 && same(m[i - 1].0.as_str(), name) {
        m.set(i - 1, (String::from_str(name), p));
        assert(properties_view(m@) =~= t.drop_last().push((name@, given)) + all.skip(i as int));
    } else {
        m.insert(i, (String::from_str(name), p));
        assert(properties_view(m@) =~= t.push((name@, given)) + all.skip(i as int));
    }
}

/// The properties of a tool that takes these.
pub open spec fn properties_of(params: Seq<ParamView>) -> Seq<(Seq<char>, PropertyView)>
    decreases params.len(),
{
    if params.len() == 0 {
        Seq::empty()
    } else {
        let p = params.last();
        with_property(properties_of(params.drop_last()), p.0, plain_property(p.1, p.2))
    }
}

/// The properties of a tool that takes these.
pub fn make_properties(params: &Vec<Param>) -> (r: Vec<(String, ToolInputProperty)>)
    ensures
        properties_view(r@) == properties_of(params_view(params@)),
{
    let ghost all = params_view(params@);
    let mut r: Vec<(String, ToolInputProperty)> = Vec::new();
    let n = params.len();
    let mut i: usize = 0;
    assert(properties_view(r@) =~= properties_of(all.take(0)));
    while i < n
        invariant
            i <= n,
            n == params@.len(),
            all == params_view(params@),
            properties_view(r@) == properties_of(all.take(i as int)),
        decreases n - i,
    {
        let p = params[i];
        assert(all.take(i + 1).drop_last() =~= all.take(i as int));
        assert(all.take(i + 1).last() == (p.0@, p.1, p.2@));
        add_property(&mut r, p.0, prop(p.1, p.2));
        i = i + 1;
    }
    assert(all.take(n as int) =~= all);
    r
}

/// The schema with these properties, of which some are required.
pub open spec fn schema_of(
    properties: Seq<(Seq<char>, PropertyView)>,
    required: Option<Seq<Seq<char>>>,
) -> SchemaView {
    SchemaView { properties, required, additional_properties: None }
}

/// The schema with these properties, of which some are required.
pub fn make_schema(
    properties: Vec<(String, ToolInputProperty)>,
    required: Option<Vec<String>>,
) -> (r: ToolInputSchema)
    ensures
        r@ == schema_of(properties_view(properties@), crate::types::optional_texts(required)),
{
    ToolInputSchema {
        schema_type: SchemaType,
        properties,
        required,
        additional_properties: None,
    }
}

/// The names of what a tool takes.
pub open spec fn names_of(params: Seq<ParamView>) -> Seq<Seq<char>> {
    params.map_values(|p: ParamView| p.0)
}

fn take_names(params: &Vec<Param>) -> (r: Vec<String>)
    ensures
        views(r@) == names_of(params_view(params@)),
{
    let ghost want = names_of(params_view(params@));
    let mut r: Vec<String> = Vec::new();
    let n = params.len();
    let mut i: usize = 0;
    while i < n
        invariant
            i <= n,
            n == params@.len(),
            want == names_of(params_view(params@)),
            r@.len() == i,
            forall|k: int| 0 <= k < i ==> (#[trigger] r@[k])@ == want[k],
        decreases n - i,
    {
        r.push(String::from_str(params[i].0));
        i = i + 1;
    }
    assert(views(r@) =~= want);
    r
}

/// Some properties are required and others are not; of two with one name the required one
/// counts.
pub open spec fn mixed_schema(required: Seq<ParamView>, optional: Seq<ParamView>) -> SchemaView {
    schema_of(properties_of(optional + required), Some(names_of(required)))
}

/// Nothing is required.
pub open spec fn optional_schema(params: Seq<ParamView>) -> SchemaView {
    schema_of(properties_of(params), None)
}

/// A schema with properties that are required and others that are not.
pub fn schema_with_optional(required: Vec<Param>, optional: Vec<Param>) -> (r: ToolInputSchema)
    ensures
        r@ == mixed_schema(params_view(required@), params_view(optional@)),
{
    let names = take_names(&required);
    let ghost a = params_view(required@);
    let ghost b = params_view(optional@);
    let mut all = optional;
    let mut more = required;
    all.append(&mut more);
    assert(params_view(all@) =~= b + a);
    make_schema(make_properties(&all), Some(names))
}

/// A schema of which nothing is required.
pub fn optional(params: Vec<Param>) -> (r: ToolInputSchema)
    ensures
        r@ == optional_schema(params_view(params@)),
{
    make_schema(make_properties(&params), None)
}

// ---------------------------------------------------------------------------
// Tools and packages
// ---------------------------------------------------------------------------

/// A tool of which nothing more is said.
pub open spec fn tool_of(
    name: Seq<char>,
    description: Seq<char>,
    schema: SchemaView,
    handler: u64,
    concurrency_safe: bool,
    timeout: Option<u64>,
) -> ToolView {
    ToolView {
        name,
        description,
        input_schema: schema,
        handler,
        concurrency_safe,
        timeout,
        max_retries: None,
        metadata: None,
        version: None,
        tags: None,
        deprecated: false,
        examples: None,
        strict: None,
    }
}

/// A tool of which nothing more is said.
pub fn make_tool(
    name: &str,
    description: &str,
    schema: ToolInputSchema,
    handler: u64,
    concurrency_safe: bool,
    timeout: Option<u64>,
) -> (r: Tool)
    ensures
        r@ == tool_of(name@, description@, schema@, handler, concurrency_safe, timeout),
{
    let b = Tool::builder(name, description, schema, handler).concurrency_safe(concurrency_safe);
    match timeout {
        Some(t) => b.timeout(t).build(),
        None => b.build(),
    }
}

/// What is said of a package to find it by.
pub open spec fn package_metadata(category: Seq<char>, tags: Seq<Seq<char>>) -> JsonView {
    JsonView::Object(
        object_of(seq![("category"@, JsonView::String(category)), ("tags"@, texts_json(tags))]),
    )
}

/// The namespace of a package whose tools have its name in front of theirs.
pub open spec fn dotted(prefix: Seq<char>) -> NamespaceView {
    NamespaceView { prefix, separator: '.', auto_prefix: true }
}

/// A package of built-in tools.
pub open spec fn package_of(
    name: Seq<char>,
    description: Seq<char>,
    prefixed: bool,
    tools: Seq<ToolView>,
    on_init: Option<u64>,
    category: Seq<char>,
    tags: Seq<Seq<char>>,
) -> PackageView {
    PackageView {
        name,
        version: Some("1.0.0"@),
        namespace: if prefixed {
            Some(dotted(name))
        } else {
            None
        },
        description: Some(description),
        dependencies: None,
        tools,
        on_init,
        on_destroy: None,
        before_execute: None,
        after_execute: None,
        metadata: Some(package_metadata(category, tags)),
    }
}

/// A package of built-in tools.
pub fn make_package(
    name: &str,
    description: &str,
    prefixed: bool,
    tools: Vec<Tool>,
    on_init: Option<u64>,
    category: &str,
    tags: Vec<String>,
) -> (r: ToolPackage)
    ensures
        r@ == package_of(
            name@,
            description@,
            prefixed,
            tools_view(tools@),
            on_init,
            category@,
            views(tags@),
        ),
{
    let mut pairs: Vec<(String, Json)> = Vec::new();
    pairs.push(entry("category", str_to_json(category)));
    pairs.push(entry("tags", texts_to_json(&tags)));
    assert(members_view(pairs@) =~= seq![
        ("category"@, JsonView::String(category@)),
        ("tags"@, texts_json(views(tags@))),
    ]);
    let namespace = if prefixed {
        Some(
            NamespaceConfig { prefix: String::from_str(name), separator: '.', auto_prefix: true },
        )
    } else {
        None
    };
    ToolPackage {
        name: String::from_str(name),
        version: Some(String::from_str("1.0.0")),
        namespace,
        description: Some(String::from_str(description)),
        dependencies: None,
        tools,
        on_init,
        on_destroy: None,
        before_execute: None,
        after_execute: None,
        metadata: Some(build_object(pairs)),
    }
}

/// Texts, as a list.
pub fn strings(v: &[&'static str]) -> (r: Vec<String>)
    ensures
        views(r@) == v@.map_values(|s: &'static str| s@),
{
    let mut r: Vec<String> = Vec::new();
    let mut i: usize = 0;
    while i < v.len()
        invariant
            i <= v@.len(),
            r@.len() == i,
            forall|k: int| 0 <= k < i ==> (#[trigger] r@[k])@ == v@[k]@,
        decreases v@.len() - i,
    {
        r.push(String::from_str(v[i]));
        i = i + 1;
    }
    assert(views(r@) =~= v@.map_values(|s: &'static str| s@));
    r
}

// ---------------------------------------------------------------------------
// What holds of schemas
// ---------------------------------------------------------------------------

/// One of the properties has this name.
pub open spec fn has_property(m: Seq<(Seq<char>, PropertyView)>, name: Seq<char>) -> bool {
    exists|i: int| 0 <= i < m.len() && (#[trigger] m[i]).0 == name
}

/// The names of the properties rise.
pub open spec fn in_name_order(m: Seq<(Seq<char>, PropertyView)>) -> bool {
    forall|i: int, j: int|
        0 <= i < j < m.len() ==> before((#[trigger] m[i]).0, (#[trigger] m[j]).0)
}

proof fn lemma_push_property(m: Seq<(Seq<char>, PropertyView)>, p: (Seq<char>, PropertyView), k: Seq<char>)
    ensures
        has_property(m.push(p), k) == (has_property(m, k) || p.0 == k),
{
    let all = m.push(p);
    if has_property(m, k) {
        let i = choose|i: int| 0 <= i < m.len() && (#[trigger] m[i]).0 == k;
        assert(all[i].0 == k);
    }
    if p.0 == k {
        assert(all[m.len() as int].0 == k);
    }
    if has_property(all, k) {
        let i = choose|i: int| 0 <= i < all.len() && (#[trigger] all[i]).0 == k;
        if i < m.len() {
            assert(m[i].0 == k);
        }
    }
}

/// A property that is added is there, and so are those of other names that were.
proof fn lemma_with_property(
    m: Seq<(Seq<char>, PropertyView)>,
    name: Seq<char>,
    p: PropertyView,
    k: Seq<char>,
)
    ensures
        has_property(with_property(m, name, p), k) == (k == name || has_property(m, k)),
    decreases m.len(),
{
    if m.len() == 0 {
        lemma_push_property(m, (name, p), k);
    } else {
        assert(m =~= m.drop_last().push(m.last()));
        lemma_push_property(m.drop_last(), m.last(), k);
        if before(m.last().0, name) {
            lemma_push_property(m, (name, p), k);
        } else if m.last().0 == name {
            lemma_push_property(m.drop_last(), (name, p), k);
        } else {
            lemma_with_property(m.drop_last(), name, p, k);
            lemma_push_property(with_property(m.drop_last(), name, p), m.last(), k);
        }
    }
}

/// What is in order stays in order when a property is added.
pub proof fn law_properties_stay_in_order(
    m: Seq<(Seq<char>, PropertyView)>,
    name: Seq<char>,
    p: PropertyView,
)
    requires
        in_name_order(m),
    ensures
        in_name_order(with_property(m, name, p)),
    decreases m.len(),
{
    let r = with_property(m, name, p);
    if m.len() > 0 {
        let rest = m.drop_last();
        assert forall|i: int| 0 <= i < rest.len() implies before((#[trigger] rest[i]).0, m.last().0) by {
            assert(rest[i] == m[i]);
            assert(before(m[i].0, m[m.len() - 1].0));
        }
        assert(in_name_order(rest)) by {
            assert forall|i: int, j: int| 0 <= i < j < rest.len() implies before(
                (#[trigger] rest[i]).0,
                (#[trigger] rest[j]).0,
            ) by {
                assert(rest[i] == m[i] && rest[j] == m[j]);
            }
        }
        if before(m.last().0, name) {
            assert forall|i: int, j: int| 0 <= i < j < r.len() implies before(
                (#[trigger] r[i]).0,
                (#[trigger] r[j]).0,
            ) by {
                assert(r[i] == m[i]);
                if j == m.len() {
                    if i < m.len() - 1 {
                        assert(before(m[i].0, m[m.len() - 1].0));
                        lemma_before_transitive(m[i].0, m.last().0, name);
                    }
                } else {
                    assert(r[j] == m[j]);
                }
            }
        } else if m.last().0 == name {
            assert forall|i: int, j: int| 0 <= i < j < r.len() implies before(
                (#[trigger] r[i]).0,
                (#[trigger] r[j]).0,
            ) by {
                assert(r[i] == m[i]);
                assert(r[j].0 == m[j].0);
                assert(before(m[i].0, m[j].0));
            }
        } else {
            lemma_before_total(name, m.last().0);
            law_properties_stay_in_order(rest, name, p);
            let inner = with_property(rest, name, p);
            assert forall|i: int| 0 <= i < inner.len() implies before(
                (#[trigger] inner[i]).0,
                m.last().0,
            ) by {
                let k = inner[i].0;
                assert(has_property(inner, k));
                lemma_with_property(rest, name, p, k);
                if k != name {
                    let j = choose|j: int| 0 <= j < rest.len() && (#[trigger] rest[j]).0 == k;
                    assert(before(rest[j].0, m.last().0));
                }
            }
            assert(r == inner.push(m.last()));
            assert forall|i: int, j: int| 0 <= i < j < r.len() implies before(
                (#[trigger] r[i]).0,
                (#[trigger] r[j]).0,
            ) by {
                assert(r[i] == inner[i]);
                if j < inner.len() {
                    assert(r[j] == inner[j]);
                }
            }
        }
    }
}

/// The properties of a tool are in the order of their names, and are those that it takes.
pub proof fn law_properties_of(params: Seq<ParamView>, k: Seq<char>)
    ensures
        in_name_order(properties_of(params)),
        has_property(properties_of(params), k) == names_of(params).contains(k),
    decreases params.len(),
{
    if params.len() > 0 {
        let p = params.last();
        let rest = params.drop_last();
        law_properties_of(rest, k);
        law_properties_stay_in_order(properties_of(rest), p.0, plain_property(p.1, p.2));
        lemma_with_property(properties_of(rest), p.0, plain_property(p.1, p.2), k);
        assert(names_of(params) =~= names_of(rest).push(p.0));
        if names_of(rest).contains(k) {
            let i = choose|i: int| 0 <= i < names_of(rest).len() && names_of(rest)[i] == k;
            assert(names_of(params)[i] == k);
        }
        if p.0 == k {
            assert(names_of(params)[rest.len() as int] == k);
        }
    }
}

/// What a tool must be given is among its properties.
pub proof fn law_required_is_declared(
    required: Seq<ParamView>,
    optional: Seq<ParamView>,
    name: Seq<char>,
)
    requires
        names_of(required).contains(name),
    ensures
        has_property(mixed_schema(required, optional).properties, name),
{
    law_properties_of(optional + required, name);
    let i = choose|i: int| 0 <= i < names_of(required).len() && names_of(required)[i] == name;
    assert(names_of(optional + required)[optional.len() + i] == name);
}

/// A parameter that is declared once is declared with its type and its description.
pub proof fn law_declared_property(params: Seq<ParamView>, i: int)
    requires
        0 <= i < params.len(),
        forall|k: int| i < k < params.len() ==> (#[trigger] params[k]).0 != params[i].0,
    ensures
        exists|j: int|
            0 <= j < properties_of(params).len() && (#[trigger] properties_of(params)[j]).0
                == params[i].0 && properties_of(params)[j].1.property_type == params[i].1
                && properties_of(params)[j].1.description == Some(params[i].2),
    decreases params.len(),
{
    let d = params.drop_last();
    let p = params.last();
    let all = properties_of(params);
    if i == params.len() - 1 {
        lemma_property_is_put(properties_of(d), p.0, plain_property(p.1, p.2));
        let j = choose|j: int|
            0 <= j < all.len() && #[trigger] all[j] == (p.0, plain_property(p.1, p.2));
        assert(all[j].0 == params[i].0);
    } else {
        assert forall|k: int| i < k < d.len() implies (#[trigger] d[k]).0 != d[i].0 by {
            assert(d[k] == params[k]);
        }
        law_declared_property(d, i);
        let rest = properties_of(d);
        let j = choose|j: int|
            0 <= j < rest.len() && (#[trigger] rest[j]).0 == d[i].0 && rest[j].1.property_type
                == d[i].1 && rest[j].1.description == Some(d[i].2);
        assert(params[params.len() - 1].0 != params[i].0);
        lemma_property_stays(rest, p.0, plain_property(p.1, p.2), j);
        let k = choose|k: int| 0 <= k < all.len() && #[trigger] all[k] == rest[j];
        assert(all[k].0 == params[i].0);
    }
}

proof fn lemma_property_is_put(
    m: Seq<(Seq<char>, PropertyView)>,
    name: Seq<char>,
    p: PropertyView,
)
    ensures
        exists|j: int|
            0 <= j < with_property(m, name, p).len() && #[trigger] with_property(m, name, p)[j]
                == (name, p),
    decreases m.len(),
{
    let w = with_property(m, name, p);
    if m.len() == 0 || before(m.last().0, name) {
        assert(w[m.len() as int] == (name, p));
    } else if m.last().0 == name {
        assert(w[m.len() - 1] == (name, p));
    } else {
        lemma_property_is_put(m.drop_last(), name, p);
        let t = with_property(m.drop_last(), name, p);
        let j = choose|j: int| 0 <= j < t.len() && #[trigger] t[j] == (name, p);
        assert(w[j] == (name, p));
    }
}

proof fn lemma_property_stays(
    m: Seq<(Seq<char>, PropertyView)>,
    name: Seq<char>,
    p: PropertyView,
    i: int,
)
    requires
        0 <= i < m.len(),
        m[i].0 != name,
    ensures
        exists|j: int|
            0 <= j < with_property(m, name, p).len() && #[trigger] with_property(m, name, p)[j]
                == m[i],
    decreases m.len(),
{
    let w = with_property(m, name, p);
    if m.len() == 0 || before(m.last().0, name) {
        assert(w[i] == m[i]);
    } else if m.last().0 == name {
        assert(w[i] == m[i]);
    } else if i == m.len() - 1 {
        assert(w[w.len() - 1] == m[i]);
    } else {
        lemma_property_stays(m.drop_last(), name, p, i);
        let t = with_property(m.drop_last(), name, p);
        let j = choose|j: int| 0 <= j < t.len() && #[trigger] t[j] == m[i];
        assert(w[j] == m[i]);
    }
}

} // verus!
