//! Type definitions for tools, packages, hooks and serialized manager configuration.
//!
//! A tool's handler, a hook's callback and a hook's guard are code that runs outside the
//! library; here each is known by a number, under which the runtime finds it again.
use vstd::prelude::*;

use crate::json::clone_items;
use crate::json::clone_optional;
use crate::json::items_view;
use crate::json::optional_view;
use crate::json::Json;
use crate::json::JsonNumber;
use crate::json::JsonView;
use crate::json_text::number_rank;
use crate::text::clone_strings;
use crate::text::views;

verus! {

// ---------------------------------------------------------------------------
// Optional values
// ---------------------------------------------------------------------------

/// The characters of a text that may be absent.
pub open spec fn optional_text(s: Option<String>) -> Option<Seq<char>> {
    match s {
        Some(s) => Some(s@),
        None => None,
    }
}

/// The texts of a list that may be absent.
pub open spec fn optional_texts(v: Option<Vec<String>>) -> Option<Seq<Seq<char>>> {
    match v {
        Some(v) => Some(views(v@)),
        None => None,
    }
}

/// The values of a list that may be absent.
pub open spec fn optional_items(v: Option<Vec<Json>>) -> Option<Seq<JsonView>> {
    match v {
        Some(v) => Some(items_view(v@)),
        None => None,
    }
}

/// A text that may be absent, copied.
pub fn clone_text(s: &Option<String>) -> (r: Option<String>)
    ensures
        r == *s,
{
    match s {
        Some(s) => Some(s.clone()),
        None => None,
    }
}

/// A list of texts that may be absent, copied.
pub fn clone_texts(v: &Option<Vec<String>>) -> (r: Option<Vec<String>>)
    ensures
        optional_texts(r) == optional_texts(*v),
{
    match v {
        Some(v) => Some(clone_strings(v)),
        None => None,
    }
}

/// A list of values that may be absent, copied.
pub fn clone_optional_items(v: &Option<Vec<Json>>) -> (r: Option<Vec<Json>>)
    ensures
        optional_items(r) == optional_items(*v),
{
    match v {
        Some(v) => Some(clone_items(v)),
        None => None,
    }
}

// ---------------------------------------------------------------------------
// Namespace
// ---------------------------------------------------------------------------

/// Separator used in tool name namespaces.
pub type NamespaceSeparator = char;

/// Default namespace separator (`.`).
pub const DEFAULT_NAMESPACE_SEPARATOR: char = '.';

/// Namespace configuration for a `ToolPackage`.
#[derive(Debug, PartialEq, Eq)]
pub struct NamespaceConfig {
    /// Prefix to prepend to tool names.
    pub prefix: String,
    /// Separator between prefix and tool name.
    pub separator: NamespaceSeparator,
    /// When `true` (default), automatically prepend the prefix to all tool names
    /// in the package unless they already start with the prefix.
    pub auto_prefix: bool,
}

/// The model of a `NamespaceConfig`.
pub struct NamespaceView {
    /// Prefix.
    pub prefix: Seq<char>,
    /// Separator.
    pub separator: char,
    /// Whether the prefix is prepended.
    pub auto_prefix: bool,
}

impl View for NamespaceConfig {
    type V = NamespaceView;

    open spec fn view(&self) -> NamespaceView {
        NamespaceView {
            prefix: self.prefix@,
            separator: self.separator,
            auto_prefix: self.auto_prefix,
        }
    }
}

/// A namespace that may be absent.
pub open spec fn optional_namespace(n: Option<NamespaceConfig>) -> Option<NamespaceView> {
    match n {
        Some(n) => Some(n@),
        None => None,
    }
}

impl Clone for NamespaceConfig {
    fn clone(&self) -> (r: Self)
        ensures
            r == *self,
    {
        NamespaceConfig {
            prefix: self.prefix.clone(),
            separator: self.separator,
            auto_prefix: self.auto_prefix,
        }
    }
}

impl Default for NamespaceConfig {
    fn default() -> (r: Self)
        ensures
            r@ == (NamespaceView {
                prefix: Seq::empty(),
                separator: DEFAULT_NAMESPACE_SEPARATOR,
                auto_prefix: true,
            }),
    {
        let prefix = String::new();
        assert(prefix@ =~= Seq::<char>::empty());
        NamespaceConfig { prefix, separator: DEFAULT_NAMESPACE_SEPARATOR, auto_prefix: true }
    }
}

// ---------------------------------------------------------------------------
// Tool input schema
// ---------------------------------------------------------------------------

/// A bound on numbers: the number in JSON, its place in the order of all numbers, and how it
/// is shown.
#[derive(Debug)]
pub struct NumericBound {
    /// The number as JSON writes it.
    pub number: JsonNumber,
    /// Its place in the order of all numbers: a smaller number has a smaller rank, and equal
    /// numbers have the same.
    pub rank: i64,
    /// The number as messages show it.
    pub label: String,
}

impl NumericBound {
    /// The rank is the place of the number in the order of all numbers.
    pub open spec fn wf(&self) -> bool {
        number_rank(self.number@) == Some(self.rank as int)
    }

    /// A bound at a number, shown as the label says; none where a text denotes no number.
    pub fn new(number: JsonNumber, label: String) -> (r: Option<Self>)
        ensures
            match r {
                Some(b) => b.wf() && b.number == number && b.label == label,
                None => number_rank(number@) is None,
            },
    {
        match number.rank() {
            Some(rank) => Some(NumericBound { number, rank, label }),
            None => None,
        }
    }
}

impl Clone for NumericBound {
    fn clone(&self) -> (r: Self)
        ensures
            r == *self,
    {
        NumericBound { number: self.number.clone(), rank: self.rank, label: self.label.clone() }
    }
}

/// Supported JSON Schema property types.
#[derive(Debug, Clone, Copy, PartialEq, Eq, Structural)]
pub enum PropertyType {
    /// JSON string.
    String,
    /// JSON number (floating point).
    Number,
    /// JSON integer.
    Integer,
    /// JSON boolean.
    Boolean,
    /// JSON array.
    Array,
    /// JSON object.
    Object,
    /// JSON null.
    Null,
}

/// JSON-schema-style description of a single property.
#[derive(Debug)]
pub struct ToolInputProperty {
    /// Property type. Matches JSON Schema primitives.
    pub property_type: PropertyType,
    /// Human-readable description.
    pub description: Option<String>,
    /// Optional enum of allowed values.
    pub enum_values: Option<Vec<Json>>,
    /// Minimum for numeric types.
    pub minimum: Option<NumericBound>,
    /// Maximum for numeric types.
    pub maximum: Option<NumericBound>,
    /// Minimum length for strings/arrays.
    pub min_length: Option<usize>,
    /// Maximum length for strings/arrays.
    pub max_length: Option<usize>,
    /// Element schema for `array` properties (JSON Schema `items`).
    pub items: Option<Box<ToolInputProperty>>,
    /// Nested properties for `object` properties (JSON Schema `properties`), in the order of
    /// their names.
    pub properties: Option<Vec<(String, ToolInputProperty)>>,
    /// Required nested property names for `object` properties.
    pub required: Option<Vec<String>>,
    /// Whether nested objects allow additional properties.
    pub additional_properties: Option<ToolAdditionalProperties>,
}

/// JSON Schema `additionalProperties`: either a boolean toggle or a nested schema.
#[derive(Debug, Clone)]
pub enum ToolAdditionalProperties {
    /// Boolean toggle (`false` = no extra keys allowed).
    Boolean(bool),
    /// Schema of the extra values.
    Schema(Box<ToolInputProperty>),
}

impl From<bool> for ToolAdditionalProperties {
    fn from(b: bool) -> (r: Self) {
        ToolAdditionalProperties::Boolean(b)
    }
}

impl vstd::std_specs::convert::FromSpecImpl<bool> for ToolAdditionalProperties {
    open spec fn obeys_from_spec() -> bool {
        true
    }

    open spec fn from_spec(b: bool) -> Self {
        ToolAdditionalProperties::Boolean(b)
    }
}

/// Marker type for the JSON Schema type `"object"`.
#[derive(Debug, Clone, Copy, PartialEq, Eq, Structural)]
pub struct SchemaType;

impl Default for SchemaType {
    fn default() -> (r: Self)
        ensures
            r == SchemaType,
    {
        SchemaType
    }
}

/// Top-level tool input schema (JSON Schema `object`).
#[derive(Debug)]
pub struct ToolInputSchema {
    /// Always the string `"object"`.
    pub schema_type: SchemaType,
    /// Property schemas by name, in the order of their names.
    pub properties: Vec<(String, ToolInputProperty)>,
    /// Required property names.
    pub required: Option<Vec<String>>,
    /// Whether additional properties are allowed.
    pub additional_properties: Option<bool>,
}

impl Default for ToolInputSchema {
    fn default() -> (r: Self)
        ensures
            r.properties@.len() == 0,
            r.required is None,
            r.additional_properties is None,
    {
        ToolInputSchema {
            schema_type: SchemaType,
            properties: Vec::new(),
            required: None,
            additional_properties: None,
        }
    }
}

impl ToolInputProperty {
    /// A property of this type, with nothing else said about it.
    pub fn of_type(property_type: PropertyType) -> (r: Self)
        ensures
            r.property_type == property_type,
            r.description is None,
            r.enum_values is None,
            r.minimum is None,
            r.maximum is None,
            r.min_length is None,
            r.max_length is None,
            r.items is None,
            r.properties is None,
            r.required is None,
            r.additional_properties is None,
    {
        ToolInputProperty {
            property_type,
            description: None,
            enum_values: None,
            minimum: None,
            maximum: None,
            min_length: None,
            max_length: None,
            items: None,
            properties: None,
            required: None,
            additional_properties: None,
        }
    }

    /// Set the element schema of an `array` property (builder style).
    pub fn with_items(self, items: ToolInputProperty) -> (r: Self)
        ensures
            r == (ToolInputProperty { items: Some(Box::new(items)), ..self }),
    {
        let mut r = self;
        r.items = Some(Box::new(items));
        r
    }

    /// Set the nested schema of an `object` property (builder style).
    pub fn with_object(
        self,
        properties: Vec<(String, ToolInputProperty)>,
        required: Option<Vec<String>>,
        additional_properties: Option<ToolAdditionalProperties>,
    ) -> (r: Self)
        ensures
            r == (ToolInputProperty {
                properties: Some(properties),
                required,
                additional_properties,
                ..self
            }),
    {
        let mut r = self;
        r.properties = Some(properties);
        r.required = required;
        r.additional_properties = additional_properties;
        r
    }
}

// ---------------------------------------------------------------------------
// Models of schemas
// ---------------------------------------------------------------------------

/// The model of a `ToolInputProperty`.
pub struct PropertyView {
    /// Property type.
    pub property_type: PropertyType,
    /// Description.
    pub description: Option<Seq<char>>,
    /// Allowed values.
    pub enum_values: Option<Seq<JsonView>>,
    /// Minimum.
    pub minimum: Option<NumericBound>,
    /// Maximum.
    pub maximum: Option<NumericBound>,
    /// Minimum length.
    pub min_length: Option<usize>,
    /// Maximum length.
    pub max_length: Option<usize>,
    /// Element schema.
    pub items: Option<Box<PropertyView>>,
    /// Nested properties.
    pub properties: Option<Seq<(Seq<char>, PropertyView)>>,
    /// Required nested property names.
    pub required: Option<Seq<Seq<char>>>,
    /// Whether, and of what kind, other properties are allowed.
    pub additional_properties: Option<AdditionalView>,
}

/// The model of `ToolAdditionalProperties`.
pub enum AdditionalView {
    /// Boolean toggle.
    Boolean(bool),
    /// Schema of the extra values.
    Schema(Box<PropertyView>),
}

/// The model of a `ToolInputSchema`.
pub struct SchemaView {
    /// Property schemas by name.
    pub properties: Seq<(Seq<char>, PropertyView)>,
    /// Required property names.
    pub required: Option<Seq<Seq<char>>>,
    /// Whether additional properties are allowed.
    pub additional_properties: Option<bool>,
}

/// The model of `p`.
pub open spec fn property_view(p: ToolInputProperty) -> PropertyView
    decreases p,
{
    PropertyView {
        property_type: p.property_type,
        description: optional_text(p.description),
        enum_values: optional_items(p.enum_values),
        minimum: p.minimum,
        maximum: p.maximum,
        min_length: p.min_length,
        max_length: p.max_length,
        items: match p.items {
            Some(b) => Some(Box::new(property_view(*b))),
            None => None,
        },
        properties: match p.properties {
            Some(v) => Some(
                Seq::new(
                    v@.len(),
                    |i: int|
                        if 0 <= i < v@.len() {
                            (v@[i].0@, property_view(v@[i].1))
                        } else {
                            arbitrary()
                        },
                ),
            ),
            None => None,
        },
        required: optional_texts(p.required),
        additional_properties: match p.additional_properties {
            Some(ToolAdditionalProperties::Boolean(b)) => Some(AdditionalView::Boolean(b)),
            Some(ToolAdditionalProperties::Schema(s)) => Some(
                AdditionalView::Schema(Box::new(property_view(*s))),
            ),
            None => None,
        },
    }
}

impl View for ToolInputProperty {
    type V = PropertyView;

    open spec fn view(&self) -> PropertyView {
        property_view(*self)
    }
}

/// The models of named properties.
pub open spec fn properties_view(v: Seq<(String, ToolInputProperty)>) -> Seq<
    (Seq<char>, PropertyView),
> {
    v.map_values(|p: (String, ToolInputProperty)| (p.0@, p.1@))
}

impl View for ToolInputSchema {
    type V = SchemaView;

    open spec fn view(&self) -> SchemaView {
        SchemaView {
            properties: properties_view(self.properties@),
            required: optional_texts(self.required),
            additional_properties: self.additional_properties,
        }
    }
}

/// The nested properties of a property's model are the models of its nested properties.
pub proof fn lemma_nested_properties(p: ToolInputProperty)
    ensures
        p.properties is Some ==> p@.properties == Some(properties_view(p.properties->0@)),
{
    if let Some(v) = p.properties {
        assert(p@.properties->0 =~= properties_view(v@));
    }
}

fn clone_bound(b: &Option<NumericBound>) -> (r: Option<NumericBound>)
    ensures
        r == *b,
{
    match b {
        Some(b) => Some(b.clone()),
        None => None,
    }
}

impl Clone for ToolInputProperty {
    fn clone(&self) -> (r: Self)
        ensures
            r@ == self@,
        decreases self,
    {
        let items = match &self.items {
            Some(b) => {
                assert(decreases_to!(*self => self.items->0));
                Some(Box::new((&**b).clone()))
            },
            None => None,
        };
        let properties = match &self.properties {
            Some(v) => {
                let mut out: Vec<(String, ToolInputProperty)> = Vec::new();
                let mut i: usize = 0;
                while i < v.len()
                    invariant
                        i <= v@.len(),
                        self.properties == Some(*v),
                        properties_view(out@) == properties_view(v@).take(i as int),
                    decreases v@.len() - i,
                {
                    let ghost before = out@;
                    let key = v[i].0.clone();
                    assert(decreases_to!(*self => self.properties->0@[i as int].1));
                    let value = v[i].1.clone();
                    out.push((key, value));
                    assert(properties_view(out@) =~= properties_view(before).push((key@, value@)));
                    i = i + 1;
                }
                assert(properties_view(v@).take(v@.len() as int) =~= properties_view(v@));
                Some(out)
            },
            None => None,
        };
        let additional_properties = match &self.additional_properties {
            Some(ToolAdditionalProperties::Boolean(b)) => Some(
                ToolAdditionalProperties::Boolean(*b),
            ),
            Some(ToolAdditionalProperties::Schema(s)) => {
                assert(decreases_to!(*self => self.additional_properties->0->Schema_0));
                Some(ToolAdditionalProperties::Schema(Box::new((&**s).clone())))
            },
            None => None,
        };
        let r = ToolInputProperty {
            property_type: self.property_type,
            description: clone_text(&self.description),
            enum_values: clone_optional_items(&self.enum_values),
            minimum: clone_bound(&self.minimum),
            maximum: clone_bound(&self.maximum),
            min_length: self.min_length,
            max_length: self.max_length,
            items,
            properties,
            required: clone_texts(&self.required),
            additional_properties,
        };
        proof {
            lemma_nested_properties(r);
            lemma_nested_properties(*self);
        }
        r
    }
}

/// Named properties, copied.
pub fn clone_properties(v: &Vec<(String, ToolInputProperty)>) -> (r: Vec<
    (String, ToolInputProperty),
>)
    ensures
        properties_view(r@) == properties_view(v@),
{
    let mut out: Vec<(String, ToolInputProperty)> = Vec::new();
    let mut i: usize = 0;
    while i < v.len()
        invariant
            i <= v@.len(),
            properties_view(out@) == properties_view(v@).take(i as int),
        decreases v@.len() - i,
    {
        let ghost before = out@;
        let key = v[i].0.clone();
        let value = v[i].1.clone();
        out.push((key, value));
        assert(properties_view(out@) =~= properties_view(before).push((key@, value@)));
        i = i + 1;
    }
    assert(properties_view(v@).take(v@.len() as int) =~= properties_view(v@));
    out
}

impl Clone for ToolInputSchema {
    fn clone(&self) -> (r: Self)
        ensures
            r@ == self@,
    {
        ToolInputSchema {
            schema_type: SchemaType,
            properties: clone_properties(&self.properties),
            required: clone_texts(&self.required),
            additional_properties: self.additional_properties,
        }
    }
}

/// The position of the first property with this name.
pub open spec fn property_index(
    props: Seq<(Seq<char>, PropertyView)>,
    name: Seq<char>,
) -> Option<int>
    decreases props.len(),
{
    if props.len() == 0 {
        None
    } else {
        match property_index(props.drop_last(), name) {
            Some(i) => Some(i),
            None => if props.last().0 == name {
                Some(props.len() - 1)
            } else {
                None
            },
        }
    }
}

/// The property with this name.
pub open spec fn property_named(
    props: Seq<(Seq<char>, PropertyView)>,
    name: Seq<char>,
) -> Option<PropertyView> {
    match property_index(props, name) {
        Some(i) => Some(props[i].1),
        None => None,
    }
}

proof fn lemma_property_index(props: Seq<(Seq<char>, PropertyView)>, name: Seq<char>)
    ensures
        match property_index(props, name) {
            Some(i) => 0 <= i < props.len() && props[i].0 == name && forall|j: int|
                0 <= j < i ==> (#[trigger] props[j]).0 != name,
            None => forall|j: int| 0 <= j < props.len() ==> (#[trigger] props[j]).0 != name,
        },
    decreases props.len(),
{
    if props.len() > 0 {
        let t = props.drop_last();
        lemma_property_index(t, name);
        assert(forall|j: int| 0 <= j < t.len() ==> t[j] == props[j]);
    }
}

/// The position of the first property with this name.
pub fn find_property_at(props: &Vec<(String, ToolInputProperty)>, name: &str) -> (r: Option<usize>)
    ensures
        match r {
            Some(i) => i < props@.len() && property_index(properties_view(props@), name@) == Some(
                i as int,
            ),
            None => property_index(properties_view(props@), name@) is None,
        },
{
    let ghost all = properties_view(props@);
    let mut i: usize = 0;
    while i < props.len()
        invariant
            i <= props@.len(),
            all == properties_view(props@),
            forall|j: int| 0 <= j < i ==> (#[trigger] all[j]).0 != name@,
        decreases props@.len() - i,
    {
        assert(all[i as int] == (props@[i as int].0@, props@[i as int].1@));
        if crate::text::same(props[i].0.as_str(), name) {
            proof {
                lemma_property_index(all, name@);
            }
            return Some(i);
        }
        i = i + 1;
    }
    proof {
        lemma_property_index(all, name@);
    }
    None
}

/// The property with this name.
pub fn find_property<'a>(props: &'a Vec<(String, ToolInputProperty)>, name: &str) -> (r: Option<
    &'a ToolInputProperty,
>)
    ensures
        match r {
            Some(p) => property_named(properties_view(props@), name@) == Some(p@),
            None => property_named(properties_view(props@), name@) is None,
        },
{
    match find_property_at(props, name) {
        Some(i) => {
            assert(properties_view(props@)[i as int].1 == props@[i as int].1@);
            Some(&props[i].1)
        },
        None => None,
    }
}

// ---------------------------------------------------------------------------
// Tool execution
// ---------------------------------------------------------------------------

/// Context passed to a tool handler on every invocation.
#[derive(Debug, Clone)]
pub struct ToolExecutionContext {
    /// Unique identifier for this invocation.
    pub tool_id: String,
    /// 0-based attempt number.
    pub attempt: u32,
    /// Maximum retries permitted for this invocation.
    pub max_retries: u32,
    /// Optional free-form metadata passed by the caller.
    pub metadata: Option<Json>,
    /// Optional namespace derived from the resolved name.
    pub namespace: Option<String>,
    /// Original tool name before namespace resolution.
    pub original_name: Option<String>,
    /// Wall-clock timestamp (ms since epoch).
    pub timestamp: i64,
}

/// A hexadecimal digit in lower case.
pub open spec fn is_hex(c: char) -> bool {
    crate::text::in_range(c, '0', '9') || crate::text::in_range(c, 'a', 'f')
}

/// The text of a random UUID: groups of hexadecimal digits with hyphens between them.
pub open spec fn is_uuid(s: Seq<char>) -> bool {
    s.len() == 36 && forall|i: int|
        0 <= i < 36 ==> if i == 8 || i == 13 || i == 18 || i == 23 {
            #[trigger] s[i] == '-'
        } else {
            is_hex(s[i])
        }
}

/// `uuid::Uuid::new_v4`, written with hyphens. Nothing is said of which one it is.
#[verifier::external_body]
fn new_uuid() -> (r: String)
    ensures
        is_uuid(r@),
{
    uuid::Uuid::new_v4().to_string()
}

/// `chrono::Utc::now`, in milliseconds since the epoch. Nothing is said of the time.
#[verifier::external_body]
pub(crate) fn now_millis() -> (r: i64) {
    chrono::Utc::now().timestamp_millis()
}

impl ToolExecutionContext {
    /// A context for a first attempt, with this identity and this time.
    pub fn with_identity(tool_name: &str, max_retries: u32, identity: &str, timestamp: i64) -> (r:
        Self)
        ensures
            r.tool_id@ == tool_name@ + "-"@ + identity@,
            r.attempt == 0,
            r.max_retries == max_retries,
            r.metadata is None,
            r.namespace is None,
            optional_text(r.original_name) == Some(tool_name@),
            r.timestamp == timestamp,
    {
        let mut tool_id = String::from_str(tool_name);
        tool_id.append("-");
        tool_id.append(identity);
        ToolExecutionContext {
            tool_id,
            attempt: 0,
            max_retries,
            metadata: None,
            namespace: None,
            original_name: Some(String::from_str(tool_name)),
            timestamp,
        }
    }

    /// Construct a fresh context for the given tool name.
    pub fn fresh(tool_name: &str, max_retries: u32) -> (r: Self)
        ensures
            exists|identity: Seq<char>|
                #[trigger] is_uuid(identity) && r.tool_id@ == tool_name@ + "-"@ + identity,
            r.attempt == 0,
            r.max_retries == max_retries,
            r.metadata is None,
            r.namespace is None,
            optional_text(r.original_name) == Some(tool_name@),
    {
        let identity = new_uuid();
        let timestamp = now_millis();
        assert(is_uuid(identity@));
        ToolExecutionContext::with_identity(tool_name, max_retries, identity.as_str(), timestamp)
    }
}

/// Full tool definition: metadata + handler + execution options.
#[derive(Debug)]
pub struct Tool {
    /// Fully-qualified name (including namespace prefix when applicable).
    pub name: String,
    /// Human-readable description surfaced to the model.
    pub description: String,
    /// JSON Schema describing the expected input.
    pub input_schema: ToolInputSchema,
    /// The number of the handler invoked by `ToolManager::execute`.
    pub handler: u64,
    /// Whether concurrent invocations of this tool are safe.
    pub concurrency_safe: bool,
    /// Per-invocation timeout in milliseconds. `None` defers to the manager default.
    pub timeout: Option<u64>,
    /// Per-tool retry count. `None` defers to the manager default.
    pub max_retries: Option<u32>,
    /// Optional metadata for discovery (`category`, `tags`, ...).
    pub metadata: Option<Json>,
    /// Optional tool version.
    pub version: Option<String>,
    /// Optional tags for filtering.
    pub tags: Option<Vec<String>>,
    /// Marks the tool as deprecated; surfaces warnings during registration.
    pub deprecated: bool,
    /// Optional examples to help the model invoke the tool correctly.
    pub examples: Option<Vec<Json>>,
    /// Structured outputs: `Some(true)` asks the model to keep strictly to the input schema.
    pub strict: Option<bool>,
}

/// The model of a `Tool`.
pub struct ToolView {
    /// Name.
    pub name: Seq<char>,
    /// Description.
    pub description: Seq<char>,
    /// Input schema.
    pub input_schema: SchemaView,
    /// Number of the handler.
    pub handler: u64,
    /// Whether concurrent invocations are safe.
    pub concurrency_safe: bool,
    /// Timeout in milliseconds.
    pub timeout: Option<u64>,
    /// Retry count.
    pub max_retries: Option<u32>,
    /// Metadata.
    pub metadata: Option<JsonView>,
    /// Version.
    pub version: Option<Seq<char>>,
    /// Tags.
    pub tags: Option<Seq<Seq<char>>>,
    /// Deprecated.
    pub deprecated: bool,
    /// Examples.
    pub examples: Option<Seq<JsonView>>,
    /// Structured outputs.
    pub strict: Option<bool>,
}

impl View for Tool {
    type V = ToolView;

    open spec fn view(&self) -> ToolView {
        ToolView {
            name: self.name@,
            description: self.description@,
            input_schema: self.input_schema@,
            handler: self.handler,
            concurrency_safe: self.concurrency_safe,
            timeout: self.timeout,
            max_retries: self.max_retries,
            metadata: optional_view(self.metadata),
            version: optional_text(self.version),
            tags: optional_texts(self.tags),
            deprecated: self.deprecated,
            examples: optional_items(self.examples),
            strict: self.strict,
        }
    }
}

impl Clone for Tool {
    fn clone(&self) -> (r: Self)
        ensures
            r@ == self@,
    {
        Tool {
            name: self.name.clone(),
            description: self.description.clone(),
            input_schema: self.input_schema.clone(),
            handler: self.handler,
            concurrency_safe: self.concurrency_safe,
            timeout: self.timeout,
            max_retries: self.max_retries,
            metadata: clone_optional(&self.metadata),
            version: clone_text(&self.version),
            tags: clone_texts(&self.tags),
            deprecated: self.deprecated,
            examples: clone_optional_items(&self.examples),
            strict: self.strict,
        }
    }
}

/// The models of tools.
pub open spec fn tools_view(v: Seq<Tool>) -> Seq<ToolView> {
    v.map_values(|t: Tool| t@)
}

/// Tools, copied.
pub fn clone_tools(v: &Vec<Tool>) -> (r: Vec<Tool>)
    ensures
        tools_view(r@) == tools_view(v@),
{
    let mut out: Vec<Tool> = Vec::new();
    let mut i: usize = 0;
    let n = v.len();
    while i < n
        invariant
            i <= n,
            n == v@.len(),
            out@.len() == i,
            forall|k: int| 0 <= k < i ==> (#[trigger] out@[k])@ == v@[k]@,
        decreases n - i,
    {
        out.push(v[i].clone());
        i = i + 1;
    }
    assert(tools_view(out@) =~= tools_view(v@));
    out
}

impl Tool {
    /// Construct a builder for `Tool` to make handler assignment ergonomic.
    pub fn builder(
        name: &str,
        description: &str,
        input_schema: ToolInputSchema,
        handler: u64,
    ) -> (r: ToolBuilder)
        ensures
            r@ == (ToolView {
                name: name@,
                description: description@,
                input_schema: input_schema@,
                handler,
                concurrency_safe: true,
                timeout: None,
                max_retries: None,
                metadata: None,
                version: None,
                tags: None,
                deprecated: false,
                examples: None,
                strict: None,
            }),
    {
        ToolBuilder {
            tool: Tool {
                name: String::from_str(name),
                description: String::from_str(description),
                input_schema,
                handler,
                concurrency_safe: true,
                timeout: None,
                max_retries: None,
                metadata: None,
                version: None,
                tags: None,
                deprecated: false,
                examples: None,
                strict: None,
            },
        }
    }
}

/// Fluent builder for `Tool`.
#[derive(Debug)]
pub struct ToolBuilder {
    tool: Tool,
}

impl View for ToolBuilder {
    type V = ToolView;

    closed spec fn view(&self) -> ToolView {
        self.tool@
    }
}

impl ToolBuilder {
    /// Override `concurrency_safe`.
    pub fn concurrency_safe(self, safe: bool) -> (r: Self)
        ensures
            r@ == (ToolView { concurrency_safe: safe, ..self@ }),
    {
        let mut tool = self.tool;
        tool.concurrency_safe = safe;
        ToolBuilder { tool }
    }

    /// Set the per-invocation timeout, in milliseconds.
    pub fn timeout(self, timeout: u64) -> (r: Self)
        ensures
            r@ == (ToolView { timeout: Some(timeout), ..self@ }),
    {
        let mut tool = self.tool;
        tool.timeout = Some(timeout);
        ToolBuilder { tool }
    }

    /// Set the per-tool retry count.
    pub fn max_retries(self, n: u32) -> (r: Self)
        ensures
            r@ == (ToolView { max_retries: Some(n), ..self@ }),
    {
        let mut tool = self.tool;
        tool.max_retries = Some(n);
        ToolBuilder { tool }
    }

    /// Attach free-form metadata.
    pub fn metadata(self, metadata: Json) -> (r: Self)
        ensures
            r@ == (ToolView { metadata: Some(metadata@), ..self@ }),
    {
        let mut tool = self.tool;
        tool.metadata = Some(metadata);
        ToolBuilder { tool }
    }

    /// Set the tool version.
    pub fn version(self, version: &str) -> (r: Self)
        ensures
            r@ == (ToolView { version: Some(version@), ..self@ }),
    {
        let mut tool = self.tool;
        tool.version = Some(String::from_str(version));
        ToolBuilder { tool }
    }

    /// Set the tool tags.
    pub fn tags(self, tags: Vec<String>) -> (r: Self)
        ensures
            r@ == (ToolView { tags: Some(views(tags@)), ..self@ }),
    {
        let mut tool = self.tool;
        tool.tags = Some(tags);
        ToolBuilder { tool }
    }

    /// Mark the tool as deprecated.
    pub fn deprecated(self, deprecated: bool) -> (r: Self)
        ensures
            r@ == (ToolView { deprecated, ..self@ }),
    {
        let mut tool = self.tool;
        tool.deprecated = deprecated;
        ToolBuilder { tool }
    }

    /// Attach usage examples.
    pub fn examples(self, examples: Vec<Json>) -> (r: Self)
        ensures
            r@ == (ToolView { examples: Some(items_view(examples@)), ..self@ }),
    {
        let mut tool = self.tool;
        tool.examples = Some(examples);
        ToolBuilder { tool }
    }

    /// Ask the model to keep strictly to the input schema of this tool.
    pub fn strict(self, strict: bool) -> (r: Self)
        ensures
            r@ == (ToolView { strict: Some(strict), ..self@ }),
    {
        let mut tool = self.tool;
        tool.strict = Some(strict);
        ToolBuilder { tool }
    }

    /// Finalize and return the `Tool`.
    pub fn build(self) -> (r: Tool)
        ensures
            r@ == self@,
    {
        self.tool
    }
}

/// Definition surfaced to AI clients (omits the handler).
#[derive(Debug, Clone)]
pub struct ToolDefinition {
    /// Tool name.
    pub name: String,
    /// Human-readable description.
    pub description: String,
    /// JSON Schema describing the expected input.
    pub input_schema: ToolInputSchema,
    /// Structured outputs, as the tool has it.
    pub strict: Option<bool>,
}

/// Resolved name carries the parsed namespace alongside the original name.
#[derive(Debug, Clone)]
pub struct ResolvedToolName {
    /// The full registered tool.
    pub tool: Tool,
    /// The parsed namespace (first component before the separator), if any.
    pub namespace: Option<String>,
    /// The portion of the name after the namespace prefix.
    pub original_name: String,
}

// ---------------------------------------------------------------------------
// Tool packages
// ---------------------------------------------------------------------------

/// A bundle of related tools with shared namespace + lifecycle hooks.
#[derive(Debug)]
pub struct ToolPackage {
    /// Package name (used as the default namespace prefix).
    pub name: String,
    /// Package version.
    pub version: Option<String>,
    /// Namespace configuration. `None` disables namespacing.
    pub namespace: Option<NamespaceConfig>,
    /// Human-readable description.
    pub description: Option<String>,
    /// Other package names this package depends on.
    pub dependencies: Option<Vec<String>>,
    /// Tools contained in this package.
    pub tools: Vec<Tool>,
    /// The number of the hook invoked after the package is fully registered.
    pub on_init: Option<u64>,
    /// The number of the hook invoked when the package is unregistered / destroyed.
    pub on_destroy: Option<u64>,
    /// The number of the hook executed before each tool call.
    pub before_execute: Option<u64>,
    /// The number of the hook executed after each tool call.
    pub after_execute: Option<u64>,
    /// Optional metadata for discovery.
    pub metadata: Option<Json>,
}

/// The model of a `ToolPackage`.
pub struct PackageView {
    /// Name.
    pub name: Seq<char>,
    /// Version.
    pub version: Option<Seq<char>>,
    /// Namespace.
    pub namespace: Option<NamespaceView>,
    /// Description.
    pub description: Option<Seq<char>>,
    /// Dependencies.
    pub dependencies: Option<Seq<Seq<char>>>,
    /// Tools.
    pub tools: Seq<ToolView>,
    /// Hook after registration.
    pub on_init: Option<u64>,
    /// Hook at the end.
    pub on_destroy: Option<u64>,
    /// Hook before each call.
    pub before_execute: Option<u64>,
    /// Hook after each call.
    pub after_execute: Option<u64>,
    /// Metadata.
    pub metadata: Option<JsonView>,
}

impl View for ToolPackage {
    type V = PackageView;

    open spec fn view(&self) -> PackageView {
        PackageView {
            name: self.name@,
            version: optional_text(self.version),
            namespace: optional_namespace(self.namespace),
            description: optional_text(self.description),
            dependencies: optional_texts(self.dependencies),
            tools: tools_view(self.tools@),
            on_init: self.on_init,
            on_destroy: self.on_destroy,
            before_execute: self.before_execute,
            after_execute: self.after_execute,
            metadata: optional_view(self.metadata),
        }
    }
}

/// A namespace that may be absent, copied.
pub fn clone_namespace(n: &Option<NamespaceConfig>) -> (r: Option<NamespaceConfig>)
    ensures
        r == *n,
{
    match n {
        Some(n) => Some(n.clone()),
        None => None,
    }
}

impl Clone for ToolPackage {
    fn clone(&self) -> (r: Self)
        ensures
            r@ == self@,
    {
        ToolPackage {
            name: self.name.clone(),
            version: clone_text(&self.version),
            namespace: clone_namespace(&self.namespace),
            description: clone_text(&self.description),
            dependencies: clone_texts(&self.dependencies),
            tools: clone_tools(&self.tools),
            on_init: self.on_init,
            on_destroy: self.on_destroy,
            before_execute: self.before_execute,
            after_execute: self.after_execute,
            metadata: clone_optional(&self.metadata),
        }
    }
}

// ---------------------------------------------------------------------------
// Hook system
// ---------------------------------------------------------------------------

/// All recognized lifecycle events.
#[derive(Debug, Clone, Copy, PartialEq, Eq, Hash, Structural)]
pub enum ToolHookEvent {
    /// Before a tool executes.
    BeforeExecute,
    /// After a tool executes successfully.
    AfterExecute,
    /// On tool execution error.
    OnError,
    /// Before a retry attempt.
    OnRetry,
    /// On execution timeout.
    OnTimeout,
    /// On tool registration.
    OnRegister,
    /// On tool unregistration.
    OnUnregister,
    /// On package registration.
    OnPackageRegister,
    /// On package unregistration.
    OnPackageUnregister,
    /// On manager config change.
    OnConfigChange,
    /// On manager destruction.
    OnDestroy,
}

/// The label of an event.
pub open spec fn event_label(e: ToolHookEvent) -> Seq<char> {
    match e {
        ToolHookEvent::BeforeExecute => "before_execute"@,
        ToolHookEvent::AfterExecute => "after_execute"@,
        ToolHookEvent::OnError => "on_error"@,
        ToolHookEvent::OnRetry => "on_retry"@,
        ToolHookEvent::OnTimeout => "on_timeout"@,
        ToolHookEvent::OnRegister => "on_register"@,
        ToolHookEvent::OnUnregister => "on_unregister"@,
        ToolHookEvent::OnPackageRegister => "on_package_register"@,
        ToolHookEvent::OnPackageUnregister => "on_package_unregister"@,
        ToolHookEvent::OnConfigChange => "on_config_change"@,
        ToolHookEvent::OnDestroy => "on_destroy"@,
    }
}

impl ToolHookEvent {
    /// String label of the event.
    pub fn as_str(&self) -> (r: &'static str)
        ensures
            r@ == event_label(*self),
    {
        match self {
            ToolHookEvent::BeforeExecute => "before_execute",
            ToolHookEvent::AfterExecute => "after_execute",
            ToolHookEvent::OnError => "on_error",
            ToolHookEvent::OnRetry => "on_retry",
            ToolHookEvent::OnTimeout => "on_timeout",
            ToolHookEvent::OnRegister => "on_register",
            ToolHookEvent::OnUnregister => "on_unregister",
            ToolHookEvent::OnPackageRegister => "on_package_register",
            ToolHookEvent::OnPackageUnregister => "on_package_unregister",
            ToolHookEvent::OnConfigChange => "on_config_change",
            ToolHookEvent::OnDestroy => "on_destroy",
        }
    }
}

/// Optional registration metadata for a hook callback.
#[derive(Debug, Clone, Copy, PartialEq, Eq, Structural)]
pub struct HookRegistrationOptions {
    /// Higher priority runs first. Default: 0.
    pub priority: i32,
    /// When `true`, the hook auto-unregisters after one execution.
    pub once: bool,
    /// The number of a guard evaluated before each invocation; `false` skips the hook.
    pub condition: Option<u64>,
}

impl Default for HookRegistrationOptions {
    fn default() -> (r: Self)
        ensures
            r == (HookRegistrationOptions { priority: 0, once: false, condition: None }),
    {
        HookRegistrationOptions { priority: 0, once: false, condition: None }
    }
}

/// Object-style hook registration: the number of the callback for each event.
#[derive(Debug, Clone, Copy, PartialEq, Eq, Structural)]
pub struct ToolHookCallbacks {
    /// `before_execute` hook.
    pub before_execute: Option<u64>,
    /// `after_execute` hook.
    pub after_execute: Option<u64>,
    /// `on_error` hook.
    pub on_error: Option<u64>,
    /// `on_retry` hook.
    pub on_retry: Option<u64>,
    /// `on_timeout` hook.
    pub on_timeout: Option<u64>,
    /// `on_register` hook.
    pub on_register: Option<u64>,
    /// `on_unregister` hook.
    pub on_unregister: Option<u64>,
    /// `on_package_register` hook.
    pub on_package_register: Option<u64>,
    /// `on_package_unregister` hook.
    pub on_package_unregister: Option<u64>,
    /// `on_config_change` hook.
    pub on_config_change: Option<u64>,
    /// `on_destroy` hook.
    pub on_destroy: Option<u64>,
}

impl Default for ToolHookCallbacks {
    fn default() -> (r: Self)
        ensures
            forall|e: ToolHookEvent| #[trigger] callback_for(r, e) is None,
    {
        ToolHookCallbacks {
            before_execute: None,
            after_execute: None,
            on_error: None,
            on_retry: None,
            on_timeout: None,
            on_register: None,
            on_unregister: None,
            on_package_register: None,
            on_package_unregister: None,
            on_config_change: None,
            on_destroy: None,
        }
    }
}

/// The callback for an event.
pub open spec fn callback_for(c: ToolHookCallbacks, e: ToolHookEvent) -> Option<u64> {
    match e {
        ToolHookEvent::BeforeExecute => c.before_execute,
        ToolHookEvent::AfterExecute => c.after_execute,
        ToolHookEvent::OnError => c.on_error,
        ToolHookEvent::OnRetry => c.on_retry,
        ToolHookEvent::OnTimeout => c.on_timeout,
        ToolHookEvent::OnRegister => c.on_register,
        ToolHookEvent::OnUnregister => c.on_unregister,
        ToolHookEvent::OnPackageRegister => c.on_package_register,
        ToolHookEvent::OnPackageUnregister => c.on_package_unregister,
        ToolHookEvent::OnConfigChange => c.on_config_change,
        ToolHookEvent::OnDestroy => c.on_destroy,
    }
}

// ---------------------------------------------------------------------------
// Validation
// ---------------------------------------------------------------------------

/// Severity of a validation issue.
#[derive(Debug, Clone, Copy, PartialEq, Eq, Structural)]
pub enum ValidationSeverity {
    /// Hard failure.
    Error,
    /// Soft warning, not fatal.
    Warning,
}

/// A single validation issue.
#[derive(Debug, PartialEq, Eq)]
pub struct ValidationError {
    /// JSON-style path to the offending field.
    pub path: String,
    /// Human-readable message.
    pub message: String,
    /// Severity (`error` or `warning`).
    pub severity: ValidationSeverity,
    /// Optional machine-readable code.
    pub code: Option<String>,
    /// Optional fix suggestion.
    pub suggestion: Option<String>,
}

impl Clone for ValidationError {
    fn clone(&self) -> (r: Self)
        ensures
            r == *self,
    {
        ValidationError {
            path: self.path.clone(),
            message: self.message.clone(),
            severity: self.severity,
            code: clone_text(&self.code),
            suggestion: clone_text(&self.suggestion),
        }
    }
}

/// Result of validating a `ToolManagerSerializedConfig`.
#[derive(Debug, Clone)]
pub struct ValidationResult {
    /// `true` when no `Error`-severity issues were found.
    pub valid: bool,
    /// All errors and warnings discovered.
    pub errors: Vec<ValidationError>,
    /// Convenience: subset of `errors` with `severity == warning`.
    pub warnings: Vec<ValidationError>,
    /// Number of tools in the config (top-level + package tools).
    pub tool_count: usize,
    /// Number of packages in the config.
    pub package_count: usize,
}

/// The issue is a warning.
pub open spec fn is_warning(e: ValidationError) -> bool {
    e.severity == ValidationSeverity::Warning
}

impl ValidationResult {
    /// Combine the per-validator counters.
    pub fn summarize(errors: Vec<ValidationError>, tool_count: usize, package_count: usize) -> (r:
        Self)
        ensures
            r.valid == forall|i: int|
                0 <= i < errors@.len() ==> (#[trigger] errors@[i]).severity
                    != ValidationSeverity::Error,
            r.errors == errors,
            r.warnings@ == errors@.filter(|e: ValidationError| is_warning(e)),
            r.tool_count == tool_count,
            r.package_count == package_count,
    {
        let ghost all = errors@;
        let ghost f = |e: ValidationError| is_warning(e);
        let mut valid = true;
        let mut warnings: Vec<ValidationError> = Vec::new();
        let mut i: usize = 0;
        let n = errors.len();
        assert(all.take(0).filter(f) =~= Seq::<ValidationError>::empty()) by {
            reveal(Seq::filter);
        }
        while i < n
            invariant
                i <= n,
                n == errors@.len(),
                all == errors@,
                f == (|e: ValidationError| is_warning(e)),
                valid == forall|k: int|
                    0 <= k < i ==> (#[trigger] all[k]).severity != ValidationSeverity::Error,
                warnings@ == all.take(i as int).filter(f),
            decreases n - i,
        {
            proof {
                assert(all.take(i + 1) =~= all.take(i as int).push(all[i as int]));
                all.take(i as int).lemma_filter_push(all[i as int], f);
            }
            match errors[i].severity {
                ValidationSeverity::Error => {
                    valid = false;
                },
                ValidationSeverity::Warning => {
                    warnings.push(errors[i].clone());
                },
            }
            i = i + 1;
        }
        assert(all.take(n as int) =~= all);
        ValidationResult { valid, errors, warnings, tool_count, package_count }
    }
}

// ---------------------------------------------------------------------------
// Tool manager configuration
// ---------------------------------------------------------------------------

/// How the registry behaves when a name collision is detected.
#[derive(Debug, Clone, Copy, PartialEq, Eq, Structural)]
pub enum ConflictStrategy {
    /// Throw an error (default).
    Error,
    /// Log a warning and keep the first registration.
    Warn,
    /// Silently keep the first registration.
    Skip,
    /// Overwrite the previous registration.
    Override,
}

impl Default for ConflictStrategy {
    fn default() -> (r: Self)
        ensures
            r == ConflictStrategy::Error,
    {
        ConflictStrategy::Error
    }
}

/// Priority ordering when merging packages from multiple configs.
#[derive(Debug, Clone, Copy, PartialEq, Eq, Structural)]
pub enum PackagePriority {
    /// First config in the list wins.
    First,
    /// Last config in the list wins.
    Last,
}

impl Default for PackagePriority {
    fn default() -> (r: Self)
        ensures
            r == PackagePriority::First,
    {
        PackagePriority::First
    }
}

/// Options for `to_config`.
#[derive(Debug, Clone)]
pub struct SerializationOptions {
    /// How handlers are written.
    pub handler_mode: Option<String>,
    /// The number of the function that names a handler.
    pub handler_id_resolver: Option<u64>,
    /// Write the metadata as well.
    pub include_metadata: bool,
}

impl Default for SerializationOptions {
    fn default() -> (r: Self)
        ensures
            r.handler_mode is None,
            r.handler_id_resolver is None,
            !r.include_metadata,
    {
        SerializationOptions {
            handler_mode: None,
            handler_id_resolver: None,
            include_metadata: false,
        }
    }
}

/// Options for `merge_configs`.
#[derive(Debug, Clone, Copy, PartialEq, Eq, Structural)]
pub struct MergeOptions {
    /// Conflict resolution strategy for tool-level duplicates.
    pub conflict_strategy: Option<ConflictStrategy>,
    /// Priority ordering when packages share a name.
    pub priority_order: Option<PackagePriority>,
    /// Reserved for merging hooks.
    pub merge_hooks: bool,
    /// Reserved for merging metadata.
    pub merge_metadata: bool,
}

impl Default for MergeOptions {
    fn default() -> (r: Self)
        ensures
            r == (MergeOptions {
                conflict_strategy: None,
                priority_order: None,
                merge_hooks: false,
                merge_metadata: false,
            }),
    {
        MergeOptions {
            conflict_strategy: None,
            priority_order: None,
            merge_hooks: false,
            merge_metadata: false,
        }
    }
}

/// How long a call may take where neither the tool nor the manager says so, in milliseconds:
/// 25 minutes.
pub const DEFAULT_TOOL_TIMEOUT_MS: u64 = 1_500_000;

/// Runtime configuration for `ToolManagerImpl`.
#[derive(Debug)]
pub struct ToolManagerConfig {
    /// Default per-invocation timeout in milliseconds.
    pub default_timeout: u64,
    /// Default per-tool retry count.
    pub default_max_retries: u32,
    /// Default namespace separator.
    pub default_separator: NamespaceSeparator,
    /// Default conflict resolution strategy.
    pub conflict_strategy: ConflictStrategy,
    /// Whether to allow override when conflicts occur.
    pub allow_override: bool,
    /// Whether to validate inputs against the tool's schema on every call.
    pub validate_schemas: bool,
    /// Optional pre-registered hook callbacks.
    pub hooks: Option<ToolHookCallbacks>,
    /// Optional metadata surfaced in `manager.config()`.
    pub metadata: Option<Json>,
    /// Optional priority ordering used when merging packages.
    pub priority: Option<PackagePriority>,
}

/// The model of a `ToolManagerConfig`.
pub struct ManagerConfigView {
    /// Default timeout in milliseconds.
    pub default_timeout: u64,
    /// Default retry count.
    pub default_max_retries: u32,
    /// Default separator.
    pub default_separator: char,
    /// Conflict strategy.
    pub conflict_strategy: ConflictStrategy,
    /// Whether to allow override.
    pub allow_override: bool,
    /// Whether to validate inputs.
    pub validate_schemas: bool,
    /// Hooks.
    pub hooks: Option<ToolHookCallbacks>,
    /// Metadata.
    pub metadata: Option<JsonView>,
    /// Priority.
    pub priority: Option<PackagePriority>,
}

impl View for ToolManagerConfig {
    type V = ManagerConfigView;

    open spec fn view(&self) -> ManagerConfigView {
        ManagerConfigView {
            default_timeout: self.default_timeout,
            default_max_retries: self.default_max_retries,
            default_separator: self.default_separator,
            conflict_strategy: self.conflict_strategy,
            allow_override: self.allow_override,
            validate_schemas: self.validate_schemas,
            hooks: self.hooks,
            metadata: optional_view(self.metadata),
            priority: self.priority,
        }
    }
}

impl Clone for ToolManagerConfig {
    fn clone(&self) -> (r: Self)
        ensures
            r@ == self@,
    {
        ToolManagerConfig {
            default_timeout: self.default_timeout,
            default_max_retries: self.default_max_retries,
            default_separator: self.default_separator,
            conflict_strategy: self.conflict_strategy,
            allow_override: self.allow_override,
            validate_schemas: self.validate_schemas,
            hooks: self.hooks,
            metadata: clone_optional(&self.metadata),
            priority: self.priority,
        }
    }
}

impl Default for ToolManagerConfig {
    fn default() -> (r: Self)
        ensures
            r@ == (ManagerConfigView {
                default_timeout: DEFAULT_TOOL_TIMEOUT_MS,
                default_max_retries: 3,
                default_separator: DEFAULT_NAMESPACE_SEPARATOR,
                conflict_strategy: ConflictStrategy::Error,
                allow_override: false,
                validate_schemas: true,
                hooks: None,
                metadata: None,
                priority: None,
            }),
    {
        ToolManagerConfig {
            default_timeout: DEFAULT_TOOL_TIMEOUT_MS,
            default_max_retries: 3,
            default_separator: DEFAULT_NAMESPACE_SEPARATOR,
            conflict_strategy: ConflictStrategy::Error,
            allow_override: false,
            validate_schemas: true,
            hooks: None,
            metadata: None,
            priority: None,
        }
    }
}

/// A name leads to the first property that has it, and to none exactly where no property has it.
pub proof fn law_property_named(props: Seq<(Seq<char>, PropertyView)>, name: Seq<char>)
    ensures
        match property_index(props, name) {
            Some(i) => 0 <= i < props.len() && props[i].0 == name && forall|k: int|
                0 <= k < i ==> (#[trigger] props[k]).0 != name,
            None => forall|k: int| 0 <= k < props.len() ==> (#[trigger] props[k]).0 != name,
        },
    decreases props.len(),
{
    if props.len() > 0 {
        let d = props.drop_last();
        law_property_named(d, name);
        assert forall|k: int| 0 <= k < d.len() implies props[k] == d[k] by {}
        if property_index(d, name) is None {
            assert forall|k: int| 0 <= k < d.len() implies (#[trigger] props[k]).0 != name by {
                assert(d[k].0 != name);
            }
        }
    }
}

/// Each event has a callback of its own: where only one is set, it is called on its event alone.
pub proof fn law_callbacks(n: u64, e: ToolHookEvent)
    ensures
        ({
            let none = ToolHookCallbacks {
                before_execute: None,
                after_execute: None,
                on_error: None,
                on_retry: None,
                on_timeout: None,
                on_register: None,
                on_unregister: None,
                on_package_register: None,
                on_package_unregister: None,
                on_config_change: None,
                on_destroy: None,
            };
            &&& callback_for(none, e) is None
            &&& callback_for(ToolHookCallbacks { before_execute: Some(n), ..none }, e) is Some <==> e
                is BeforeExecute
            &&& callback_for(ToolHookCallbacks { after_execute: Some(n), ..none }, e) is Some <==> e
                is AfterExecute
            &&& callback_for(ToolHookCallbacks { on_error: Some(n), ..none }, e) is Some <==> e
                is OnError
            &&& callback_for(ToolHookCallbacks { on_retry: Some(n), ..none }, e) is Some <==> e
                is OnRetry
            &&& callback_for(ToolHookCallbacks { on_timeout: Some(n), ..none }, e) is Some <==> e
                is OnTimeout
            &&& callback_for(ToolHookCallbacks { on_register: Some(n), ..none }, e) is Some <==> e
                is OnRegister
            &&& callback_for(ToolHookCallbacks { on_unregister: Some(n), ..none }, e) is Some
                <==> e is OnUnregister
            &&& callback_for(ToolHookCallbacks { on_package_register: Some(n), ..none }, e) is Some
                <==> e is OnPackageRegister
            &&& callback_for(ToolHookCallbacks { on_package_unregister: Some(n), ..none }, e)
                is Some <==> e is OnPackageUnregister
            &&& callback_for(ToolHookCallbacks { on_config_change: Some(n), ..none }, e) is Some
                <==> e is OnConfigChange
            &&& callback_for(ToolHookCallbacks { on_destroy: Some(n), ..none }, e) is Some <==> e
                is OnDestroy
        }),
{
}

/// Each event has its own name.
pub proof fn law_event_names()
    ensures
        event_label(ToolHookEvent::BeforeExecute) == "before_execute"@,
        event_label(ToolHookEvent::AfterExecute) == "after_execute"@,
        event_label(ToolHookEvent::OnError) == "on_error"@,
        event_label(ToolHookEvent::OnRetry) == "on_retry"@,
        event_label(ToolHookEvent::OnTimeout) == "on_timeout"@,
        event_label(ToolHookEvent::OnRegister) == "on_register"@,
        event_label(ToolHookEvent::OnUnregister) == "on_unregister"@,
        event_label(ToolHookEvent::OnPackageRegister) == "on_package_register"@,
        event_label(ToolHookEvent::OnPackageUnregister) == "on_package_unregister"@,
        event_label(ToolHookEvent::OnConfigChange) == "on_config_change"@,
        event_label(ToolHookEvent::OnDestroy) == "on_destroy"@,
{
}

} // verus!
