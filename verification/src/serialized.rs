//! Serialized manager configuration: tools, packages and settings as they are written down,
//! and their JSON form.
use vstd::prelude::*;

use crate::handler_refs::ref_json;
use crate::handler_refs::HandlerRef;
use crate::handler_refs::RefView;
use crate::json::add_entry;
use crate::json::build_object;
use crate::json::clone_items;
use crate::json::clone_optional;
use crate::json::count_json;
use crate::json::field;
use crate::json::json_or_null;
use crate::json::law_object_holds;
use crate::json::lemma_array_view;
use crate::json::list_json;
use crate::json::list_to_json;
use crate::json::members_view;
use crate::json::number_json;
use crate::json::number_to_json;
use crate::json::object_of;
use crate::json::optional_view;
use crate::json::or_null;
use crate::json::text_json;
use crate::json::text_to_json;
use crate::json::texts_json;
use crate::json::Json;
use crate::json::JsonView;
use crate::schema_json::schema_json;
use crate::types::clone_optional_items;
use crate::types::clone_text;
use crate::types::clone_texts;
use crate::types::optional_items;
use crate::types::optional_text;
use crate::types::optional_texts;
use crate::types::ConflictStrategy;
use crate::types::NamespaceConfig;
use crate::types::NamespaceSeparator;
use crate::types::NamespaceView;
use crate::types::SchemaView;
use crate::types::ToolInputSchema;

verus! {

/// Resolver of a single handler inside a serialized `ToolConfig`.
#[derive(Debug)]
pub enum SerializedHandler {
    /// Bare string.
    Name(String),
    /// Object form.
    Ref(HandlerRef),
}

/// The model of a `SerializedHandler`.
pub enum SerializedView {
    /// Bare string.
    Name(Seq<char>),
    /// Object form.
    Ref(RefView),
}

impl View for SerializedHandler {
    type V = SerializedView;

    open spec fn view(&self) -> SerializedView {
        match *self {
            SerializedHandler::Name(n) => SerializedView::Name(n@),
            SerializedHandler::Ref(r) => SerializedView::Ref(r@),
        }
    }
}

impl Clone for SerializedHandler {
    fn clone(&self) -> (r: Self)
        ensures
            r@ == self@,
    {
        match self {
            SerializedHandler::Name(n) => SerializedHandler::Name(n.clone()),
            SerializedHandler::Ref(r) => SerializedHandler::Ref(r.clone()),
        }
    }
}

/// Description of a single tool inside a `ToolPackageConfig`.
#[derive(Debug)]
pub struct ToolConfig {
    /// Tool name (without namespace prefix).
    pub name: String,
    /// Human-readable description.
    pub description: String,
    /// JSON Schema describing the expected input.
    pub input_schema: ToolInputSchema,
    /// Handler reference.
    pub handler: SerializedHandler,
    /// Whether concurrent invocations are safe.
    pub concurrency_safe: bool,
    /// Optional per-invocation timeout in ms.
    pub timeout: Option<u64>,
    /// Optional per-tool retry count.
    pub max_retries: Option<u32>,
    /// Optional metadata.
    pub metadata: Option<Json>,
    /// Optional version.
    pub version: Option<String>,
    /// Optional tags.
    pub tags: Option<Vec<String>>,
    /// Whether the tool is deprecated.
    pub deprecated: bool,
    /// Optional examples.
    pub examples: Option<Vec<Json>>,
}

/// The model of a `ToolConfig`.
pub struct ToolConfigView {
    /// Name.
    pub name: Seq<char>,
    /// Description.
    pub description: Seq<char>,
    /// Input schema.
    pub input_schema: SchemaView,
    /// Handler.
    pub handler: SerializedView,
    /// Whether concurrent invocations are safe.
    pub concurrency_safe: bool,
    /// Timeout in ms.
    pub timeout: Option<u64>,
    /// Retry count.
    pub max_retries: Option<u32>,
    /// Metadata.
    pub metadata: Option<JsonView>,
    /// Version.
    pub version: Option<Seq<char>>,
    /// Tags.
    pub tags: Option<Seq<Seq<char>>>,
    /// Deprecated.
    pub deprecated: bool,
    /// Examples.
    pub examples: Option<Seq<JsonView>>,
}

impl View for ToolConfig {
    type V = ToolConfigView;

    open spec fn view(&self) -> ToolConfigView {
        ToolConfigView {
            name: self.name@,
            description: self.description@,
            input_schema: self.input_schema@,
            handler: self.handler@,
            concurrency_safe: self.concurrency_safe,
            timeout: self.timeout,
            max_retries: self.max_retries,
            metadata: optional_view(self.metadata),
            version: optional_text(self.version),
            tags: optional_texts(self.tags),
            deprecated: self.deprecated,
            examples: optional_items(self.examples),
        }
    }
}

impl Clone for ToolConfig {
    fn clone(&self) -> (r: Self)
        ensures
            r@ == self@,
    {
        ToolConfig {
            name: self.name.clone(),
            description: self.description.clone(),
            input_schema: self.input_schema.clone(),
            handler: self.handler.clone(),
            concurrency_safe: self.concurrency_safe,
            timeout: self.timeout,
            max_retries: self.max_retries,
            metadata: clone_optional(&self.metadata),
            version: clone_text(&self.version),
            tags: clone_texts(&self.tags),
            deprecated: self.deprecated,
            examples: clone_optional_items(&self.examples),
        }
    }
}

/// The models of tools.
pub open spec fn configs_view(v: Seq<ToolConfig>) -> Seq<ToolConfigView> {
    v.map_values(|t: ToolConfig| t@)
}

/// Tools, copied.
pub fn clone_configs(v: &Vec<ToolConfig>) -> (r: Vec<ToolConfig>)
    ensures
        configs_view(r@) == configs_view(v@),
{
    let mut out: Vec<ToolConfig> = Vec::new();
    let mut i: usize = 0;
    let n = v.len();
    while i < n
        invariant
            i <= n,
            n == v@.len(),
            out@.len() == i,
            forall|k: int| 0 <= k < i ==> (#[trigger] out@[k])@ == v@[k]@,
        decreases n - i,
    {
        out.push(v[i].clone());
        i = i + 1;
    }
    assert(configs_view(out@) =~= configs_view(v@));
    out
}

/// Either a `NamespaceConfig` object or a plain boolean toggle.
#[derive(Debug)]
pub enum NamespaceConfigOrBool {
    /// Boolean toggle (true = use package name as prefix).
    Bool(bool),
    /// Full namespace config.
    Object(NamespaceConfig),
}

/// The model of a `NamespaceConfigOrBool`.
pub enum ChoiceView {
    /// Boolean toggle.
    Bool(bool),
    /// Full namespace config.
    Object(NamespaceView),
}

impl View for NamespaceConfigOrBool {
    type V = ChoiceView;

    open spec fn view(&self) -> ChoiceView {
        match *self {
            NamespaceConfigOrBool::Bool(b) => ChoiceView::Bool(b),
            NamespaceConfigOrBool::Object(o) => ChoiceView::Object(o@),
        }
    }
}

/// A choice of namespace that may be absent.
pub open spec fn optional_choice(n: Option<NamespaceConfigOrBool>) -> Option<ChoiceView> {
    match n {
        Some(n) => Some(n@),
        None => None,
    }
}

impl Clone for NamespaceConfigOrBool {
    fn clone(&self) -> (r: Self)
        ensures
            r == *self,
    {
        match self {
            NamespaceConfigOrBool::Bool(b) => NamespaceConfigOrBool::Bool(*b),
            NamespaceConfigOrBool::Object(o) => NamespaceConfigOrBool::Object(o.clone()),
        }
    }
}

/// Description of a single package inside a serialized config.
#[derive(Debug)]
pub struct ToolPackageConfig {
    /// Package name.
    pub name: String,
    /// Optional version.
    pub version: Option<String>,
    /// Optional namespace config.
    pub namespace: Option<NamespaceConfigOrBool>,
    /// Optional description.
    pub description: Option<String>,
    /// Optional dependencies.
    pub dependencies: Option<Vec<String>>,
    /// Tools contained in the package.
    pub tools: Vec<ToolConfig>,
}

/// The model of a `ToolPackageConfig`.
pub struct PackageConfigView {
    /// Name.
    pub name: Seq<char>,
    /// Version.
    pub version: Option<Seq<char>>,
    /// Namespace.
    pub namespace: Option<ChoiceView>,
    /// Description.
    pub description: Option<Seq<char>>,
    /// Dependencies.
    pub dependencies: Option<Seq<Seq<char>>>,
    /// Tools.
    pub tools: Seq<ToolConfigView>,
}

impl View for ToolPackageConfig {
    type V = PackageConfigView;

    open spec fn view(&self) -> PackageConfigView {
        PackageConfigView {
            name: self.name@,
            version: optional_text(self.version),
            namespace: optional_choice(self.namespace),
            description: optional_text(self.description),
            dependencies: optional_texts(self.dependencies),
            tools: configs_view(self.tools@),
        }
    }
}

/// A choice of namespace that may be absent, copied.
pub fn clone_choice(n: &Option<NamespaceConfigOrBool>) -> (r: Option<NamespaceConfigOrBool>)
    ensures
        r == *n,
{
    match n {
        Some(n) => Some(n.clone()),
        None => None,
    }
}

impl Clone for ToolPackageConfig {
    fn clone(&self) -> (r: Self)
        ensures
            r@ == self@,
    {
        ToolPackageConfig {
            name: self.name.clone(),
            version: clone_text(&self.version),
            namespace: clone_choice(&self.namespace),
            description: clone_text(&self.description),
            dependencies: clone_texts(&self.dependencies),
            tools: clone_configs(&self.tools),
        }
    }
}

/// The models of packages.
pub open spec fn packages_view(v: Seq<ToolPackageConfig>) -> Seq<PackageConfigView> {
    v.map_values(|p: ToolPackageConfig| p@)
}

/// Top-level manager configuration section in a serialized config.
#[derive(Debug)]
pub struct SerializedManagerConfig {
    /// Default per-invocation timeout in ms.
    pub default_timeout: Option<u64>,
    /// Default per-tool retry count.
    pub default_max_retries: Option<u32>,
    /// Default namespace separator.
    pub default_separator: Option<NamespaceSeparator>,
    /// Default conflict strategy.
    pub conflict_strategy: Option<ConflictStrategy>,
    /// Whether to allow override of conflicting tools.
    pub allow_override: Option<bool>,
    /// Whether to validate input schemas on every invocation.
    pub validate_schemas: Option<bool>,
    /// Optional metadata.
    pub metadata: Option<Json>,
}

/// The model of a `SerializedManagerConfig`.
pub struct SettingsView {
    /// Default timeout in ms.
    pub default_timeout: Option<u64>,
    /// Default retry count.
    pub default_max_retries: Option<u32>,
    /// Default separator.
    pub default_separator: Option<char>,
    /// Default conflict strategy.
    pub conflict_strategy: Option<ConflictStrategy>,
    /// Whether to allow override.
    pub allow_override: Option<bool>,
    /// Whether to validate input schemas.
    pub validate_schemas: Option<bool>,
    /// Metadata.
    pub metadata: Option<JsonView>,
}

impl View for SerializedManagerConfig {
    type V = SettingsView;

    open spec fn view(&self) -> SettingsView {
        SettingsView {
            default_timeout: self.default_timeout,
            default_max_retries: self.default_max_retries,
            default_separator: self.default_separator,
            conflict_strategy: self.conflict_strategy,
            allow_override: self.allow_override,
            validate_schemas: self.validate_schemas,
            metadata: optional_view(self.metadata),
        }
    }
}

impl Clone for SerializedManagerConfig {
    fn clone(&self) -> (r: Self)
        ensures
            r@ == self@,
    {
        SerializedManagerConfig {
            default_timeout: self.default_timeout,
            default_max_retries: self.default_max_retries,
            default_separator: self.default_separator,
            conflict_strategy: self.conflict_strategy,
            allow_override: self.allow_override,
            validate_schemas: self.validate_schemas,
            metadata: clone_optional(&self.metadata),
        }
    }
}

impl Default for SerializedManagerConfig {
    fn default() -> (r: Self)
        ensures
            r@ == (SettingsView {
                default_timeout: None,
                default_max_retries: None,
                default_separator: None,
                conflict_strategy: None,
                allow_override: None,
                validate_schemas: None,
                metadata: None,
            }),
    {
        SerializedManagerConfig {
            default_timeout: None,
            default_max_retries: None,
            default_separator: None,
            conflict_strategy: None,
            allow_override: None,
            validate_schemas: None,
            metadata: None,
        }
    }
}

/// Full serialized manager config — what `manager.export_config()` returns.
#[derive(Debug, Clone)]
pub struct ToolManagerSerializedConfig {
    /// Schema version. Always `"1.0"`.
    pub version: String,
    /// Optional manager-level overrides.
    pub config: Option<SerializedManagerConfig>,
    /// Registered packages.
    pub packages: Vec<ToolPackageConfig>,
    /// Optional tools registered outside of any package.
    pub standalone_tools: Option<Vec<ToolConfig>>,
}

/// The model of a `ToolManagerSerializedConfig`.
pub struct ConfigView {
    /// Schema version.
    pub version: Seq<char>,
    /// Settings.
    pub config: Option<SettingsView>,
    /// Packages.
    pub packages: Seq<PackageConfigView>,
    /// Tools outside of any package.
    pub standalone_tools: Option<Seq<ToolConfigView>>,
}

/// Settings that may be absent.
pub open spec fn optional_settings(s: Option<SerializedManagerConfig>) -> Option<SettingsView> {
    match s {
        Some(s) => Some(s@),
        None => None,
    }
}

/// Tools that may be absent.
pub open spec fn optional_configs(v: Option<Vec<ToolConfig>>) -> Option<Seq<ToolConfigView>> {
    match v {
        Some(v) => Some(configs_view(v@)),
        None => None,
    }
}

impl View for ToolManagerSerializedConfig {
    type V = ConfigView;

    open spec fn view(&self) -> ConfigView {
        ConfigView {
            version: self.version@,
            config: optional_settings(self.config),
            packages: packages_view(self.packages@),
            standalone_tools: optional_configs(self.standalone_tools),
        }
    }
}

/// The config with nothing in it.
pub open spec fn empty_config() -> ConfigView {
    ConfigView {
        version: "1.0"@,
        config: None,
        packages: Seq::empty(),
        standalone_tools: None,
    }
}

impl ToolManagerSerializedConfig {
    /// Construct an empty config.
    pub fn empty() -> (r: Self)
        ensures
            r@ == empty_config(),
    {
        let r = ToolManagerSerializedConfig {
            version: String::from_str("1.0"),
            config: None,
            packages: Vec::new(),
            standalone_tools: None,
        };
        assert(r@.packages =~= Seq::<PackageConfigView>::empty());
        r
    }
}

// ---------------------------------------------------------------------------
// Differences
// ---------------------------------------------------------------------------

/// A single field-level change between two configs.
#[derive(Debug, Clone)]
pub struct ConfigFieldChange {
    /// Field name.
    pub field: String,
    /// Previous value.
    pub old_value: Option<Json>,
    /// New value.
    pub new_value: Option<Json>,
}

/// The model of a `ConfigFieldChange`.
pub struct ChangeView {
    /// Field name.
    pub field: Seq<char>,
    /// Previous value.
    pub old_value: Option<JsonView>,
    /// New value.
    pub new_value: Option<JsonView>,
}

impl View for ConfigFieldChange {
    type V = ChangeView;

    open spec fn view(&self) -> ChangeView {
        ChangeView {
            field: self.field@,
            old_value: optional_view(self.old_value),
            new_value: optional_view(self.new_value),
        }
    }
}

/// The models of changes.
pub open spec fn changes_view(v: Seq<ConfigFieldChange>) -> Seq<ChangeView> {
    v.map_values(|c: ConfigFieldChange| c@)
}

/// Per-tool change entry.
#[derive(Debug, Clone)]
pub struct ModifiedTool {
    /// Tool name.
    pub name: String,
    /// Previous definition.
    pub old: ToolConfig,
    /// New definition.
    pub new: ToolConfig,
    /// Per-field changes.
    pub changes: Vec<ConfigFieldChange>,
}

/// The model of a `ModifiedTool`.
pub struct ModifiedView {
    /// Tool name.
    pub name: Seq<char>,
    /// Previous definition.
    pub before: ToolConfigView,
    /// New definition.
    pub after: ToolConfigView,
    /// Per-field changes.
    pub changes: Seq<ChangeView>,
}

impl View for ModifiedTool {
    type V = ModifiedView;

    open spec fn view(&self) -> ModifiedView {
        ModifiedView {
            name: self.name@,
            before: self.old@,
            after: self.new@,
            changes: changes_view(self.changes@),
        }
    }
}

/// The models of changed tools.
pub open spec fn modified_view(v: Seq<ModifiedTool>) -> Seq<ModifiedView> {
    v.map_values(|m: ModifiedTool| m@)
}

/// Result of `ToolManagerFactory::diff_configs`.
#[derive(Debug, Clone)]
pub struct ConfigDiff {
    /// Tools present in `B` but not in `A`.
    pub added: Vec<ToolConfig>,
    /// Tools present in `A` but not in `B`.
    pub removed: Vec<ToolConfig>,
    /// Tools present in both with different definitions.
    pub modified: Vec<ModifiedTool>,
    /// Packages present in `B` but not in `A`.
    pub added_packages: Vec<ToolPackageConfig>,
    /// Packages present in `A` but not in `B`.
    pub removed_packages: Vec<ToolPackageConfig>,
    /// Per-package changes.
    pub modified_packages: Vec<ModifiedTool>,
    /// Top-level config field changes.
    pub config_changes: Option<Vec<ConfigFieldChange>>,
    /// `true` when `added`/`removed`/`modified` are all empty.
    pub identical: bool,
}

// ---------------------------------------------------------------------------
// JSON form
// ---------------------------------------------------------------------------

/// A handler in JSON.
pub open spec fn handler_json(h: SerializedView) -> JsonView {
    match h {
        SerializedView::Name(n) => JsonView::String(n),
        SerializedView::Ref(r) => ref_json(r),
    }
}

/// A retry count that may be absent.
pub open spec fn retries(n: Option<u32>) -> Option<u64> {
    match n {
        Some(n) => Some(n as u64),
        None => None,
    }
}

fn widened(n: Option<u32>) -> (r: Option<u64>)
    ensures
        r == retries(n),
{
    match n {
        Some(n) => Some(n as u64),
        None => None,
    }
}

/// Values that may be absent, in JSON.
pub open spec fn items_json(v: Option<Seq<JsonView>>) -> JsonView {
    match v {
        Some(v) => JsonView::Array(v),
        None => JsonView::Null,
    }
}

fn items_to_json(v: &Option<Vec<Json>>) -> (r: Json)
    ensures
        r@ == items_json(optional_items(*v)),
{
    match v {
        Some(v) => {
            let items = clone_items(v);
            proof {
                lemma_array_view(items);
            }
            Json::Array(items)
        },
        None => Json::Null,
    }
}

/// A toggle that may be absent, in JSON.
pub open spec fn flag_json(b: Option<bool>) -> JsonView {
    match b {
        Some(b) => JsonView::Bool(b),
        None => JsonView::Null,
    }
}

fn flag_to_json(b: Option<bool>) -> (r: Json)
    ensures
        r@ == flag_json(b),
{
    match b {
        Some(b) => Json::Bool(b),
        None => Json::Null,
    }
}

/// A tool in JSON: every field under its name, `null` where it is absent.
pub open spec fn tool_json(t: ToolConfigView) -> JsonView {
    JsonView::Object(
        object_of(
            seq![
                ("name"@, JsonView::String(t.name)),
                ("description"@, JsonView::String(t.description)),
                ("input_schema"@, schema_json(t.input_schema)),
                ("handler"@, handler_json(t.handler)),
                ("concurrencySafe"@, JsonView::Bool(t.concurrency_safe)),
                ("timeout"@, number_json(t.timeout)),
                ("maxRetries"@, number_json(retries(t.max_retries))),
                ("metadata"@, or_null(t.metadata)),
                ("version"@, text_json(t.version)),
                ("tags"@, list_json(t.tags)),
                ("deprecated"@, JsonView::Bool(t.deprecated)),
                ("examples"@, items_json(t.examples)),
            ],
        ),
    )
}

impl SerializedHandler {
    /// The handler in JSON.
    pub fn to_json(&self) -> (r: Json)
        ensures
            r@ == handler_json(self@),
    {
        match self {
            SerializedHandler::Name(n) => Json::String(n.clone()),
            SerializedHandler::Ref(r) => r.to_json(),
        }
    }
}

impl ToolConfig {
    /// The tool in JSON.
    pub fn to_json(&self) -> (r: Json)
        ensures
            r@ == tool_json(self@),
    {
        let mut pairs: Vec<(String, Json)> = Vec::new();
        add_entry(&mut pairs, "name", Json::String(self.name.clone()));
        add_entry(&mut pairs, "description", Json::String(self.description.clone()));
        add_entry(&mut pairs, "input_schema", self.input_schema.to_json());
        add_entry(&mut pairs, "handler", self.handler.to_json());
        add_entry(&mut pairs, "concurrencySafe", Json::Bool(self.concurrency_safe));
        add_entry(&mut pairs, "timeout", number_to_json(self.timeout));
        add_entry(&mut pairs, "maxRetries", number_to_json(widened(self.max_retries)));
        add_entry(&mut pairs, "metadata", json_or_null(&self.metadata));
        add_entry(&mut pairs, "version", text_to_json(&self.version));
        add_entry(&mut pairs, "tags", list_to_json(&self.tags));
        add_entry(&mut pairs, "deprecated", Json::Bool(self.deprecated));
        add_entry(&mut pairs, "examples", items_to_json(&self.examples));
        let ghost t = self@;
        assert(members_view(pairs@) =~= seq![
            ("name"@, JsonView::String(t.name)),
            ("description"@, JsonView::String(t.description)),
            ("input_schema"@, schema_json(t.input_schema)),
            ("handler"@, handler_json(t.handler)),
            ("concurrencySafe"@, JsonView::Bool(t.concurrency_safe)),
            ("timeout"@, number_json(t.timeout)),
            ("maxRetries"@, number_json(retries(t.max_retries))),
            ("metadata"@, or_null(t.metadata)),
            ("version"@, text_json(t.version)),
            ("tags"@, list_json(t.tags)),
            ("deprecated"@, JsonView::Bool(t.deprecated)),
            ("examples"@, items_json(t.examples)),
        ]);
        build_object(pairs)
    }
}

/// The name of a strategy in JSON.
pub open spec fn strategy_name(s: ConflictStrategy) -> Seq<char> {
    match s {
        ConflictStrategy::Error => "error"@,
        ConflictStrategy::Warn => "warn"@,
        ConflictStrategy::Skip => "skip"@,
        ConflictStrategy::Override => "override"@,
    }
}

/// A strategy that may be absent, in JSON.
pub open spec fn strategy_json(s: Option<ConflictStrategy>) -> JsonView {
    match s {
        Some(s) => JsonView::String(strategy_name(s)),
        None => JsonView::Null,
    }
}

fn strategy_to_json(s: Option<ConflictStrategy>) -> (r: Json)
    ensures
        r@ == strategy_json(s),
{
    match s {
        Some(s) => {
            let name = match s {
                ConflictStrategy::Error => "error",
                ConflictStrategy::Warn => "warn",
                ConflictStrategy::Skip => "skip",
                ConflictStrategy::Override => "override",
            };
            Json::String(String::from_str(name))
        },
        None => Json::Null,
    }
}

/// A separator that may be absent, in JSON.
pub open spec fn separator_json(c: Option<char>) -> JsonView {
    match c {
        Some(c) => JsonView::String(seq![c]),
        None => JsonView::Null,
    }
}

fn separator_to_json(c: Option<char>) -> (r: Json)
    ensures
        r@ == separator_json(c),
{
    match c {
        Some(c) => {
            let mut s = String::new();
            s.push(c);
            assert(s@ =~= seq![c]);
            Json::String(s)
        },
        None => Json::Null,
    }
}

/// Settings in JSON: every field under its name, `null` where it is absent.
pub open spec fn settings_json(s: SettingsView) -> JsonView {
    JsonView::Object(
        object_of(
            seq![
                ("defaultTimeout"@, number_json(s.default_timeout)),
                ("defaultMaxRetries"@, number_json(retries(s.default_max_retries))),
                ("defaultSeparator"@, separator_json(s.default_separator)),
                ("conflictStrategy"@, strategy_json(s.conflict_strategy)),
                ("allowOverride"@, flag_json(s.allow_override)),
                ("validateSchemas"@, flag_json(s.validate_schemas)),
                ("metadata"@, or_null(s.metadata)),
            ],
        ),
    )
}

impl SerializedManagerConfig {
    /// The settings in JSON.
    pub fn to_json(&self) -> (r: Json)
        ensures
            r@ == settings_json(self@),
    {
        let mut pairs: Vec<(String, Json)> = Vec::new();
        add_entry(&mut pairs, "defaultTimeout", number_to_json(self.default_timeout));
        add_entry(
            &mut pairs,
            "defaultMaxRetries",
            number_to_json(widened(self.default_max_retries)),
        );
        add_entry(&mut pairs, "defaultSeparator", separator_to_json(self.default_separator));
        add_entry(&mut pairs, "conflictStrategy", strategy_to_json(self.conflict_strategy));
        add_entry(&mut pairs, "allowOverride", flag_to_json(self.allow_override));
        add_entry(&mut pairs, "validateSchemas", flag_to_json(self.validate_schemas));
        add_entry(&mut pairs, "metadata", json_or_null(&self.metadata));
        let ghost s = self@;
        assert(members_view(pairs@) =~= seq![
            ("defaultTimeout"@, number_json(s.default_timeout)),
            ("defaultMaxRetries"@, number_json(retries(s.default_max_retries))),
            ("defaultSeparator"@, separator_json(s.default_separator)),
            ("conflictStrategy"@, strategy_json(s.conflict_strategy)),
            ("allowOverride"@, flag_json(s.allow_override)),
            ("validateSchemas"@, flag_json(s.validate_schemas)),
            ("metadata"@, or_null(s.metadata)),
        ]);
        build_object(pairs)
    }
}

/// A tool is written with each of its fields under its name; what is absent is null.
#[verifier::rlimit(50)]
pub proof fn law_tool_json(t: ToolConfigView)
    ensures
        field(tool_json(t), "name"@) == Some(JsonView::String(t.name)),
        field(tool_json(t), "description"@) == Some(JsonView::String(t.description)),
        field(tool_json(t), "input_schema"@) == Some(schema_json(t.input_schema)),
        field(tool_json(t), "handler"@) == Some(handler_json(t.handler)),
        field(tool_json(t), "concurrencySafe"@) == Some(JsonView::Bool(t.concurrency_safe)),
        field(tool_json(t), "timeout"@) == Some(number_json(t.timeout)),
        field(tool_json(t), "maxRetries"@) == match t.max_retries {
            Some(n) => Some(count_json(n as nat)),
            None => Some(JsonView::Null),
        },
        field(tool_json(t), "metadata"@) == match t.metadata {
            Some(m) => Some(m),
            None => Some(JsonView::Null),
        },
        field(tool_json(t), "version"@) == match t.version {
            Some(v) => Some(JsonView::String(v)),
            None => Some(JsonView::Null),
        },
        field(tool_json(t), "tags"@) == match t.tags {
            Some(v) => Some(texts_json(v)),
            None => Some(JsonView::Null),
        },
        field(tool_json(t), "deprecated"@) == Some(JsonView::Bool(t.deprecated)),
        field(tool_json(t), "examples"@) == match t.examples {
            Some(v) => Some(JsonView::Array(v)),
            None => Some(JsonView::Null),
        },
{
    let pairs = seq![
        ("name"@, JsonView::String(t.name)),
        ("description"@, JsonView::String(t.description)),
        ("input_schema"@, schema_json(t.input_schema)),
        ("handler"@, handler_json(t.handler)),
        ("concurrencySafe"@, JsonView::Bool(t.concurrency_safe)),
        ("timeout"@, number_json(t.timeout)),
        ("maxRetries"@, number_json(retries(t.max_retries))),
        ("metadata"@, or_null(t.metadata)),
        ("version"@, text_json(t.version)),
        ("tags"@, list_json(t.tags)),
        ("deprecated"@, JsonView::Bool(t.deprecated)),
        ("examples"@, items_json(t.examples)),
    ];
    reveal_strlit("name");
    reveal_strlit("description");
    reveal_strlit("input_schema");
    reveal_strlit("handler");
    reveal_strlit("concurrencySafe");
    reveal_strlit("timeout");
    reveal_strlit("maxRetries");
    reveal_strlit("metadata");
    reveal_strlit("version");
    reveal_strlit("tags");
    reveal_strlit("deprecated");
    reveal_strlit("examples");
    assert("name"@.len() == 4);
    assert("description"@.len() == 11);
    assert("input_schema"@.len() == 12);
    assert("handler"@.len() == 7);
    assert("concurrencySafe"@.len() == 15);
    assert("timeout"@.len() == 7);
    assert("maxRetries"@.len() == 10);
    assert("metadata"@.len() == 8);
    assert("version"@.len() == 7);
    assert("tags"@.len() == 4);
    assert("deprecated"@.len() == 10);
    assert("examples"@.len() == 8);
    assert("name"@[0] != "tags"@[0]);
    assert("handler"@[0] != "timeout"@[0]);
    assert("handler"@[0] != "version"@[0]);
    assert("timeout"@[0] != "version"@[0]);
    assert("maxRetries"@[0] != "deprecated"@[0]);
    assert("metadata"@[0] != "examples"@[0]);
    law_object_holds(pairs, 0, "name"@);
    law_object_holds(pairs, 1, "description"@);
    law_object_holds(pairs, 2, "input_schema"@);
    law_object_holds(pairs, 3, "handler"@);
    law_object_holds(pairs, 4, "concurrencySafe"@);
    law_object_holds(pairs, 5, "timeout"@);
    law_object_holds(pairs, 6, "maxRetries"@);
    law_object_holds(pairs, 7, "metadata"@);
    law_object_holds(pairs, 8, "version"@);
    law_object_holds(pairs, 9, "tags"@);
    law_object_holds(pairs, 10, "deprecated"@);
    law_object_holds(pairs, 11, "examples"@);
}

/// Settings are written with each of them under its name; what is absent is null.
#[verifier::rlimit(50)]
pub proof fn law_settings_json(s: SettingsView)
    ensures
        field(settings_json(s), "defaultTimeout"@) == Some(number_json(s.default_timeout)),
        field(settings_json(s), "defaultMaxRetries"@) == match s.default_max_retries {
            Some(n) => Some(count_json(n as nat)),
            None => Some(JsonView::Null),
        },
        field(settings_json(s), "defaultSeparator"@) == match s.default_separator {
            Some(c) => Some(JsonView::String(seq![c])),
            None => Some(JsonView::Null),
        },
        field(settings_json(s), "conflictStrategy"@) == match s.conflict_strategy {
            Some(ConflictStrategy::Error) => Some(JsonView::String("error"@)),
            Some(ConflictStrategy::Warn) => Some(JsonView::String("warn"@)),
            Some(ConflictStrategy::Skip) => Some(JsonView::String("skip"@)),
            Some(ConflictStrategy::Override) => Some(JsonView::String("override"@)),
            None => Some(JsonView::Null),
        },
        field(settings_json(s), "allowOverride"@) == match s.allow_override {
            Some(b) => Some(JsonView::Bool(b)),
            None => Some(JsonView::Null),
        },
        field(settings_json(s), "validateSchemas"@) == match s.validate_schemas {
            Some(b) => Some(JsonView::Bool(b)),
            None => Some(JsonView::Null),
        },
{
    let pairs = seq![
        ("defaultTimeout"@, number_json(s.default_timeout)),
        ("defaultMaxRetries"@, number_json(retries(s.default_max_retries))),
        ("defaultSeparator"@, separator_json(s.default_separator)),
        ("conflictStrategy"@, strategy_json(s.conflict_strategy)),
        ("allowOverride"@, flag_json(s.allow_override)),
        ("validateSchemas"@, flag_json(s.validate_schemas)),
        ("metadata"@, or_null(s.metadata)),
    ];
    reveal_strlit("defaultTimeout");
    reveal_strlit("defaultMaxRetries");
    reveal_strlit("defaultSeparator");
    reveal_strlit("conflictStrategy");
    reveal_strlit("allowOverride");
    reveal_strlit("validateSchemas");
    reveal_strlit("metadata");
    assert("defaultTimeout"@.len() == 14);
    assert("defaultMaxRetries"@.len() == 17);
    assert("defaultSeparator"@.len() == 16);
    assert("conflictStrategy"@.len() == 16);
    assert("allowOverride"@.len() == 13);
    assert("validateSchemas"@.len() == 15);
    assert("metadata"@.len() == 8);
    assert("defaultSeparator"@[0] != "conflictStrategy"@[0]);
    law_object_holds(pairs, 0, "defaultTimeout"@);
    law_object_holds(pairs, 1, "defaultMaxRetries"@);
    law_object_holds(pairs, 2, "defaultSeparator"@);
    law_object_holds(pairs, 3, "conflictStrategy"@);
    law_object_holds(pairs, 4, "allowOverride"@);
    law_object_holds(pairs, 5, "validateSchemas"@);
    law_object_holds(pairs, 6, "metadata"@);
}

} // verus!
