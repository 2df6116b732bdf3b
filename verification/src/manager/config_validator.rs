//! Validation of serialized manager configuration.
use vstd::prelude::*;

use crate::handler_refs::lemma_chain_view;
use crate::handler_refs::HandlerRef;
use crate::handler_refs::RefView;
use crate::serialized::configs_view;
use crate::serialized::packages_view;
use crate::serialized::ChoiceView;
use crate::serialized::ConfigView;
use crate::serialized::NamespaceConfigOrBool;
use crate::serialized::PackageConfigView;
use crate::serialized::SerializedHandler;
use crate::serialized::SerializedView;
use crate::serialized::ToolConfig;
use crate::serialized::ToolConfigView;
use crate::serialized::ToolManagerSerializedConfig;
use crate::serialized::ToolPackageConfig;
use crate::text::decimal;
use crate::text::push_decimal;
use crate::text::same;
use crate::types::optional_text;
use crate::types::ValidationError;
use crate::types::ValidationResult;
use crate::types::ValidationSeverity;

verus! {

/// What is found: where, what, how grave, and under which code.
pub struct FindingView {
    /// Path to the offending field.
    pub path: Seq<char>,
    /// Message.
    pub message: Seq<char>,
    /// Severity.
    pub severity: ValidationSeverity,
    /// Code.
    pub code: Option<Seq<char>>,
    /// Suggestion.
    pub suggestion: Option<Seq<char>>,
}

impl View for ValidationError {
    type V = FindingView;

    open spec fn view(&self) -> FindingView {
        FindingView {
            path: self.path@,
            message: self.message@,
            severity: self.severity,
            code: optional_text(self.code),
            suggestion: optional_text(self.suggestion),
        }
    }
}

/// The models of findings.
pub open spec fn findings_view(v: Seq<ValidationError>) -> Seq<FindingView> {
    v.map_values(|e: ValidationError| e@)
}

/// One error where it applies, nothing otherwise.
pub open spec fn error_if(
    applies: bool,
    path: Seq<char>,
    message: Seq<char>,
    code: Seq<char>,
) -> Seq<FindingView> {
    if applies {
        seq![
            FindingView {
                path,
                message,
                severity: ValidationSeverity::Error,
                code: Some(code),
                suggestion: None,
            },
        ]
    } else {
        Seq::empty()
    }
}

/// One warning where it applies, nothing otherwise.
pub open spec fn warning_if(
    applies: bool,
    path: Seq<char>,
    message: Seq<char>,
    code: Seq<char>,
) -> Seq<FindingView> {
    if applies {
        seq![
            FindingView {
                path,
                message,
                severity: ValidationSeverity::Warning,
                code: Some(code),
                suggestion: None,
            },
        ]
    } else {
        Seq::empty()
    }
}

// ---------------------------------------------------------------------------
// What is to be found
// ---------------------------------------------------------------------------

/// What is wrong with a reference to a handler.
pub open spec fn ref_findings(r: RefView, base: Seq<char>) -> Seq<FindingView> {
    match r {
        RefView::BuiltinName(name) => error_if(
            name.len() == 0,
            base + ".name"@,
            "Builtin handler name is required"@,
            "MISSING_BUILTIN_NAME"@,
        ),
        RefView::Builtin { name, .. } => error_if(
            name.len() == 0,
            base + ".name"@,
            "Builtin handler name is required"@,
            "MISSING_BUILTIN_NAME"@,
        ),
        RefView::Http { url, .. } => error_if(
            url.len() == 0,
            base + ".url"@,
            "HTTP handler URL is required"@,
            "MISSING_HTTP_URL"@,
        ),
        RefView::Script { command, .. } => error_if(
            command.len() == 0,
            base + ".command"@,
            "Script handler command is required"@,
            "MISSING_SCRIPT_COMMAND"@,
        ),
        RefView::Composite { chain, .. } => error_if(
            chain.len() == 0,
            base + ".chain"@,
            "Composite handler must have a non-empty chain array"@,
            "INVALID_COMPOSITE_CHAIN"@,
        ),
    }
}

/// What is wrong with a handler.
pub open spec fn handler_findings(h: SerializedView, base: Seq<char>) -> Seq<FindingView> {
    match h {
        SerializedView::Name(name) => error_if(
            name.len() == 0,
            base + ".handler"@,
            "Handler name is required"@,
            "MISSING_HANDLER_NAME"@,
        ),
        SerializedView::Ref(r) => ref_findings(r, base + ".handler"@),
    }
}

/// What is wrong with a tool.
pub open spec fn tool_findings(t: ToolConfigView, base: Seq<char>) -> Seq<FindingView> {
    error_if(
        t.name.len() == 0,
        base + ".name"@,
        "Tool name is required"@,
        "MISSING_TOOL_NAME"@,
    ) + error_if(
        t.description.len() == 0,
        base + ".description"@,
        "Tool description is required"@,
        "MISSING_TOOL_DESCRIPTION"@,
    ) + warning_if(
        t.input_schema.properties.len() == 0,
        base + ".input_schema.properties"@,
        "input_schema must have at least one property"@,
        "EMPTY_PROPERTIES"@,
    ) + handler_findings(t.handler, base)
}

/// One of the tools has this name.
pub open spec fn has_tool(tools: Seq<ToolConfigView>, name: Seq<char>) -> bool {
    exists|i: int| 0 <= i < tools.len() && (#[trigger] tools[i]).name == name
}

/// The path of one of several.
pub open spec fn nth_path(base: Seq<char>, i: nat) -> Seq<char> {
    base + "["@ + decimal(i) + "]"@
}

/// What is wrong with the tools of a package, each by itself and next to those before it.
pub open spec fn tools_findings(tools: Seq<ToolConfigView>, base: Seq<char>) -> Seq<FindingView>
    decreases tools.len(),
{
    if tools.len() == 0 {
        Seq::empty()
    } else {
        let t = tools.last();
        tools_findings(tools.drop_last(), base) + tool_findings(
            t,
            nth_path(base + ".tools"@, (tools.len() - 1) as nat),
        ) + error_if(
            has_tool(tools.drop_last(), t.name),
            base + ".tools"@,
            "Duplicate tool name in package: "@ + t.name,
            "DUPLICATE_TOOL"@,
        )
    }
}

/// The namespace is an object without a prefix.
pub open spec fn lacks_prefix(n: Option<ChoiceView>) -> bool {
    match n {
        Some(ChoiceView::Object(ns)) => ns.prefix.len() == 0,
        _ => false,
    }
}

/// What is wrong with a package.
pub open spec fn package_findings(p: PackageConfigView, base: Seq<char>) -> Seq<FindingView> {
    error_if(
        p.name.len() == 0,
        base + ".name"@,
        "Package name is required"@,
        "MISSING_PACKAGE_NAME"@,
    ) + error_if(
        p.tools.len() == 0,
        base + ".tools"@,
        "Package must have at least one tool"@,
        "EMPTY_PACKAGE_TOOLS"@,
    ) + tools_findings(p.tools, base) + error_if(
        lacks_prefix(p.namespace),
        base + ".namespace.prefix"@,
        "Namespace prefix is required when namespace is an object"@,
        "MISSING_NAMESPACE_PREFIX"@,
    )
}

/// One of the packages has this name.
pub open spec fn has_package(packages: Seq<PackageConfigView>, name: Seq<char>) -> bool {
    exists|i: int| 0 <= i < packages.len() && (#[trigger] packages[i]).name == name
}

/// What is wrong with packages, each by itself and next to those before it.
pub open spec fn packages_findings(packages: Seq<PackageConfigView>) -> Seq<FindingView>
    decreases packages.len(),
{
    if packages.len() == 0 {
        Seq::empty()
    } else {
        let p = packages.last();
        packages_findings(packages.drop_last()) + package_findings(
            p,
            nth_path("packages"@, (packages.len() - 1) as nat),
        ) + error_if(
            has_package(packages.drop_last(), p.name),
            "packages"@,
            "Duplicate package name: "@ + p.name,
            "DUPLICATE_PACKAGE"@,
        )
    }
}

/// What is wrong with the tools outside of any package.
pub open spec fn standalone_findings(tools: Seq<ToolConfigView>) -> Seq<FindingView>
    decreases tools.len(),
{
    if tools.len() == 0 {
        Seq::empty()
    } else {
        standalone_findings(tools.drop_last()) + tool_findings(
            tools.last(),
            nth_path("standaloneTools"@, (tools.len() - 1) as nat),
        )
    }
}

/// The tools outside of any package.
pub open spec fn standalone(c: ConfigView) -> Seq<ToolConfigView> {
    match c.standalone_tools {
        Some(v) => v,
        None => Seq::empty(),
    }
}

/// The settings ask for a timeout of zero.
pub open spec fn zero_timeout(c: ConfigView) -> bool {
    match c.config {
        Some(s) => s.default_timeout == Some(0u64),
        None => false,
    }
}

/// Everything that is wrong with a config, in the order in which it is reported.
pub open spec fn config_findings(c: ConfigView) -> Seq<FindingView> {
    error_if(
        c.version.len() == 0,
        "version"@,
        "Missing version field"@,
        "MISSING_VERSION"@,
    ) + error_if(
        zero_timeout(c),
        "config.defaultTimeout"@,
        "defaultTimeout must be a positive number"@,
        "INVALID_TIMEOUT"@,
    ) + packages_findings(c.packages) + standalone_findings(standalone(c))
}

/// How many tools there are in packages.
pub open spec fn tools_in(packages: Seq<PackageConfigView>) -> nat
    decreases packages.len(),
{
    if packages.len() == 0 {
        0
    } else {
        tools_in(packages.drop_last()) + packages.last().tools.len()
    }
}

/// How many tools there are in a config.
pub open spec fn tool_total(c: ConfigView) -> nat {
    tools_in(c.packages) + standalone(c).len()
}

// ---------------------------------------------------------------------------
// Finding it
// ---------------------------------------------------------------------------

fn joined(a: &str, b: &str) -> (r: String)
    ensures
        r@ == a@ + b@,
{
    let mut r = String::from_str(a);
    r.append(b);
    r
}

fn path_of(base: &str, i: usize) -> (r: String)
    ensures
        r@ == nth_path(base@, i as nat),
{
    let mut r = String::from_str(base);
    r.append("[");
    push_decimal(&mut r, i as u64);
    r.append("]");
    r
}

fn report(
    out: &mut Vec<ValidationError>,
    applies: bool,
    severity: ValidationSeverity,
    path: String,
    message: &str,
    code: &str,
)
    ensures
        findings_view(final(out)@) == findings_view(old(out)@) + match severity {
            ValidationSeverity::Error => error_if(applies, path@, message@, code@),
            ValidationSeverity::Warning => warning_if(applies, path@, message@, code@),
        },
{
    let ghost before = out@;
    if applies {
        let e = ValidationError {
            path,
            message: String::from_str(message),
            severity,
            code: Some(String::from_str(code)),
            suggestion: None,
        };
        out.push(e);
        assert(findings_view(out@) =~= findings_view(before).push(e@));
        assert(findings_view(before).push(e@) =~= findings_view(before) + seq![e@]);
    } else {
        assert(findings_view(out@) =~= findings_view(before) + Seq::<FindingView>::empty());
    }
}

fn empty(s: &String) -> (r: bool)
    ensures
        r == (s@.len() == 0),
{
    s.as_str().unicode_len() == 0
}

/// Validates `ToolManagerSerializedConfig` instances.
#[derive(Debug, Clone, Copy, PartialEq, Eq, Structural)]
pub struct ConfigValidatorImpl;

impl Default for ConfigValidatorImpl {
    fn default() -> (r: Self)
        ensures
            r == ConfigValidatorImpl,
    {
        ConfigValidatorImpl
    }
}

impl ConfigValidatorImpl {
    /// Construct a new validator.
    pub fn new() -> (r: Self)
        ensures
            r == ConfigValidatorImpl,
    {
        ConfigValidatorImpl
    }

    fn validate_handler_ref(&self, r: &HandlerRef, base_path: &str, out: &mut Vec<ValidationError>)
        ensures
            findings_view(final(out)@) == findings_view(old(out)@) + ref_findings(
                r@,
                base_path@,
            ),
    {
        match r {
            HandlerRef::BuiltinName(name) => report(
                out,
                empty(name),
                ValidationSeverity::Error,
                joined(base_path, ".name"),
                "Builtin handler name is required",
                "MISSING_BUILTIN_NAME",
            ),
            HandlerRef::Builtin(b) => report(
                out,
                empty(&b.name),
                ValidationSeverity::Error,
                joined(base_path, ".name"),
                "Builtin handler name is required",
                "MISSING_BUILTIN_NAME",
            ),
            HandlerRef::Http(h) => report(
                out,
                empty(&h.url),
                ValidationSeverity::Error,
                joined(base_path, ".url"),
                "HTTP handler URL is required",
                "MISSING_HTTP_URL",
            ),
            HandlerRef::Script(s) => report(
                out,
                empty(&s.command),
                ValidationSeverity::Error,
                joined(base_path, ".command"),
                "Script handler command is required",
                "MISSING_SCRIPT_COMMAND",
            ),
            HandlerRef::Composite(c) => {
                proof {
                    lemma_chain_view(*c);
                }
                report(
                    out,
                    c.chain.len() == 0,
                    ValidationSeverity::Error,
                    joined(base_path, ".chain"),
                    "Composite handler must have a non-empty chain array",
                    "INVALID_COMPOSITE_CHAIN",
                )
            },
        }
    }

    /// Validate a single tool config. Pushes errors into `out`.
    pub fn validate_tool(&self, tool: &ToolConfig, base_path: &str, out: &mut Vec<ValidationError>)
        ensures
            findings_view(final(out)@) == findings_view(old(out)@) + tool_findings(
                tool@,
                base_path@,
            ),
    {
        let ghost start = findings_view(out@);
        report(
            out,
            empty(&tool.name),
            ValidationSeverity::Error,
            joined(base_path, ".name"),
            "Tool name is required",
            "MISSING_TOOL_NAME",
        );
        report(
            out,
            empty(&tool.description),
            ValidationSeverity::Error,
            joined(base_path, ".description"),
            "Tool description is required",
            "MISSING_TOOL_DESCRIPTION",
        );
        report(
            out,
            tool.input_schema.properties.len() == 0,
            ValidationSeverity::Warning,
            joined(base_path, ".input_schema.properties"),
            "input_schema must have at least one property",
            "EMPTY_PROPERTIES",
        );
        match &tool.handler {
            SerializedHandler::Name(s) => report(
                out,
                empty(s),
                ValidationSeverity::Error,
                joined(base_path, ".handler"),
                "Handler name is required",
                "MISSING_HANDLER_NAME",
            ),
            SerializedHandler::Ref(r) => {
                let base = joined(base_path, ".handler");
                self.validate_handler_ref(r, base.as_str(), out);
            },
        }
        assert(findings_view(out@) =~= start + tool_findings(tool@, base_path@));
    }

    /// Validate a single package. Pushes errors into `out`.
    pub fn validate_package(
        &self,
        pkg: &ToolPackageConfig,
        base_path: &str,
        out: &mut Vec<ValidationError>,
    )
        ensures
            findings_view(final(out)@) == findings_view(old(out)@) + package_findings(
                pkg@,
                base_path@,
            ),
    {
        let ghost start = findings_view(out@);
        report(
            out,
            empty(&pkg.name),
            ValidationSeverity::Error,
            joined(base_path, ".name"),
            "Package name is required",
            "MISSING_PACKAGE_NAME",
        );
        let tools_path = joined(base_path, ".tools");
        report(
            out,
            pkg.tools.len() == 0,
            ValidationSeverity::Error,
            joined(base_path, ".tools"),
            "Package must have at least one tool",
            "EMPTY_PACKAGE_TOOLS",
        );
        let ghost head = findings_view(out@);
        let ghost all = configs_view(pkg.tools@);
        let n = pkg.tools.len();
        let mut i: usize = 0;
        assert(all.take(0) =~= Seq::<ToolConfigView>::empty());
        assert(head + tools_findings(all.take(0), base_path@) =~= head);
        while i < n
            invariant
                i <= n,
                n == pkg.tools@.len(),
                all == configs_view(pkg.tools@),
                tools_path@ == base_path@ + ".tools"@,
                findings_view(out@) == head + tools_findings(all.take(i as int), base_path@),
            decreases n - i,
        {
            let ghost before = findings_view(out@);
            let path = path_of(tools_path.as_str(), i);
            self.validate_tool(&pkg.tools[i], path.as_str(), out);
            let seen = tool_listed(&pkg.tools, i, pkg.tools[i].name.as_str());
            let message = joined("Duplicate tool name in package: ", pkg.tools[i].name.as_str());
            report(
                out,
                seen,
                ValidationSeverity::Error,
                joined(base_path, ".tools"),
                message.as_str(),
                "DUPLICATE_TOOL",
            );
            assert(all.take(i + 1).drop_last() =~= all.take(i as int));
            assert(all.take(i + 1).last() == pkg.tools@[i as int]@);
            assert(findings_view(out@) =~= head + tools_findings(all.take(i + 1), base_path@));
            i = i + 1;
        }
        assert(all.take(n as int) =~= all);
        let bare = match &pkg.namespace {
            Some(NamespaceConfigOrBool::Object(ns)) => empty(&ns.prefix),
            _ => false,
        };
        report(
            out,
            bare,
            ValidationSeverity::Error,
            joined(base_path, ".namespace.prefix"),
            "Namespace prefix is required when namespace is an object",
            "MISSING_NAMESPACE_PREFIX",
        );
        assert(findings_view(out@) =~= start + package_findings(pkg@, base_path@));
    }

    fn validate_packages(&self, packages: &Vec<ToolPackageConfig>, out: &mut Vec<ValidationError>)
        ensures
            findings_view(final(out)@) == findings_view(old(out)@) + packages_findings(
                packages_view(packages@),
            ),
    {
        let ghost head = findings_view(out@);
        let ghost all = packages_view(packages@);
        let n = packages.len();
        let mut i: usize = 0;
        assert(all.take(0) =~= Seq::<PackageConfigView>::empty());
        assert(head + packages_findings(all.take(0)) =~= head);
        while i < n
            invariant
                i <= n,
                n == packages@.len(),
                all == packages_view(packages@),
                findings_view(out@) == head + packages_findings(all.take(i as int)),
            decreases n - i,
        {
            let path = path_of("packages", i);
            self.validate_package(&packages[i], path.as_str(), out);
            let seen = package_listed(packages, i, packages[i].name.as_str());
            let message = joined("Duplicate package name: ", packages[i].name.as_str());
            report(
                out,
                seen,
                ValidationSeverity::Error,
                String::from_str("packages"),
                message.as_str(),
                "DUPLICATE_PACKAGE",
            );
            assert(all.take(i + 1).drop_last() =~= all.take(i as int));
            assert(all.take(i + 1).last() == packages@[i as int]@);
            assert(findings_view(out@) =~= head + packages_findings(all.take(i + 1)));
            i = i + 1;
        }
        assert(all.take(n as int) =~= all);
    }

    fn validate_standalone(&self, tools: &Vec<ToolConfig>, out: &mut Vec<ValidationError>)
        ensures
            findings_view(final(out)@) == findings_view(old(out)@) + standalone_findings(
                configs_view(tools@),
            ),
    {
        let ghost head = findings_view(out@);
        let ghost all = configs_view(tools@);
        let n = tools.len();
        let mut i: usize = 0;
        assert(all.take(0) =~= Seq::<ToolConfigView>::empty());
        assert(head + standalone_findings(all.take(0)) =~= head);
        while i < n
            invariant
                i <= n,
                n == tools@.len(),
                all == configs_view(tools@),
                findings_view(out@) == head + standalone_findings(all.take(i as int)),
            decreases n - i,
        {
            let path = path_of("standaloneTools", i);
            self.validate_tool(&tools[i], path.as_str(), out);
            assert(all.take(i + 1).drop_last() =~= all.take(i as int));
            assert(all.take(i + 1).last() == tools@[i as int]@);
            assert(findings_view(out@) =~= head + standalone_findings(all.take(i + 1)));
            i = i + 1;
        }
        assert(all.take(n as int) =~= all);
    }

    /// Validate a full config. Returns a structured `ValidationResult`.
    pub fn validate(&self, config: &ToolManagerSerializedConfig) -> (r: ValidationResult)
        requires
            tool_total(config@) <= usize::MAX,
        ensures
            findings_view(r.errors@) == config_findings(config@),
            r.valid == no_errors(config_findings(config@)),
            findings_view(r.warnings@) == config_findings(config@).filter(
                |f: FindingView| f.severity == ValidationSeverity::Warning,
            ),
            r.tool_count as nat == tool_total(config@),
            r.package_count as nat == config@.packages.len(),
    {
        let mut errors: Vec<ValidationError> = Vec::new();
        assert(findings_view(errors@) =~= Seq::<FindingView>::empty());
        report(
            &mut errors,
            empty(&config.version),
            ValidationSeverity::Error,
            String::from_str("version"),
            "Missing version field",
            "MISSING_VERSION",
        );
        let zero = match &config.config {
            Some(mc) => match mc.default_timeout {
                Some(t) => t == 0,
                None => false,
            },
            None => false,
        };
        report(
            &mut errors,
            zero,
            ValidationSeverity::Error,
            String::from_str("config.defaultTimeout"),
            "defaultTimeout must be a positive number",
            "INVALID_TIMEOUT",
        );
        self.validate_packages(&config.packages, &mut errors);
        let extra: usize = match &config.standalone_tools {
            Some(tools) => {
                self.validate_standalone(tools, &mut errors);
                tools.len()
            },
            None => {
                assert(findings_view(errors@) =~= findings_view(errors@) + standalone_findings(
                    Seq::<ToolConfigView>::empty(),
                ));
                0
            },
        };
        assert(findings_view(errors@) =~= config_findings(config@));
        let tool_count = count_tools(&config.packages, extra);
        let r = ValidationResult::summarize(errors, tool_count, config.packages.len());
        proof {
            lemma_warnings(errors@);
            let f = config_findings(config@);
            if no_errors(f) {
                assert forall|i: int| 0 <= i < errors@.len() implies (#[trigger] errors@[i]).severity
                    != ValidationSeverity::Error by {
                    assert(f[i] == errors@[i]@);
                }
            } else {
                let i = choose|i: int| 0 <= i < f.len() && (#[trigger] f[i]).severity
                    == ValidationSeverity::Error;
                assert(f[i] == errors@[i]@);
            }
        }
        r
    }
}

/// Nothing that was found is an error.
pub open spec fn no_errors(f: Seq<FindingView>) -> bool {
    forall|i: int| 0 <= i < f.len() ==> (#[trigger] f[i]).severity != ValidationSeverity::Error
}

proof fn lemma_warnings(v: Seq<ValidationError>)
    ensures
        findings_view(v.filter(|e: ValidationError| crate::types::is_warning(e)))
            == findings_view(v).filter(
            |f: FindingView| f.severity == ValidationSeverity::Warning,
        ),
    decreases v.len(),
{
    let p = |e: ValidationError| crate::types::is_warning(e);
    let q = |f: FindingView| f.severity == ValidationSeverity::Warning;
    reveal(Seq::filter);
    if v.len() == 0 {
        assert(findings_view(v.filter(p)) =~= findings_view(v).filter(q));
    } else {
        lemma_warnings(v.drop_last());
        assert(findings_view(v).drop_last() =~= findings_view(v.drop_last()));
        assert(findings_view(v).last() == v.last()@);
        if p(v.last()) {
            assert(findings_view(v.drop_last().filter(p).push(v.last())) =~= findings_view(
                v.drop_last().filter(p),
            ).push(v.last()@));
        }
    }
}

fn tool_listed(tools: &Vec<ToolConfig>, n: usize, name: &str) -> (r: bool)
    requires
        n <= tools@.len(),
    ensures
        r == has_tool(configs_view(tools@).take(n as int), name@),
{
    let ghost all = configs_view(tools@).take(n as int);
    let mut i: usize = 0;
    while i < n
        invariant
            i <= n <= tools@.len(),
            all == configs_view(tools@).take(n as int),
            forall|k: int| 0 <= k < i ==> (#[trigger] all[k]).name != name@,
        decreases n - i,
    {
        if same(tools[i].name.as_str(), name) {
            assert(all[i as int].name == name@);
            return true;
        }
        i = i + 1;
    }
    false
}

fn package_listed(packages: &Vec<ToolPackageConfig>, n: usize, name: &str) -> (r: bool)
    requires
        n <= packages@.len(),
    ensures
        r == has_package(packages_view(packages@).take(n as int), name@),
{
    let ghost all = packages_view(packages@).take(n as int);
    let mut i: usize = 0;
    while i < n
        invariant
            i <= n <= packages@.len(),
            all == packages_view(packages@).take(n as int),
            forall|k: int| 0 <= k < i ==> (#[trigger] all[k]).name != name@,
        decreases n - i,
    {
        if same(packages[i].name.as_str(), name) {
            assert(all[i as int].name == name@);
            return true;
        }
        i = i + 1;
    }
    false
}

proof fn lemma_tools_in(packages: Seq<PackageConfigView>, i: int)
    requires
        0 <= i <= packages.len(),
    ensures
        tools_in(packages.take(i)) <= tools_in(packages),
    decreases packages.len(),
{
    if i < packages.len() {
        lemma_tools_in(packages.drop_last(), i);
        assert(packages.drop_last().take(i) =~= packages.take(i));
    } else {
        assert(packages.take(i) =~= packages);
    }
}

fn count_tools(packages: &Vec<ToolPackageConfig>, extra: usize) -> (r: usize)
    requires
        tools_in(packages_view(packages@)) + extra <= usize::MAX,
    ensures
        r as nat == tools_in(packages_view(packages@)) + extra,
{
    let ghost all = packages_view(packages@);
    let n = packages.len();
    let mut total: usize = 0;
    let mut i: usize = 0;
    assert(all.take(0) =~= Seq::<PackageConfigView>::empty());
    while i < n
        invariant
            i <= n,
            n == packages@.len(),
            all == packages_view(packages@),
            total as nat == tools_in(all.take(i as int)),
            tools_in(all) + extra <= usize::MAX,
        decreases n - i,
    {
        proof {
            lemma_tools_in(all, i + 1);
            assert(all.take(i + 1).drop_last() =~= all.take(i as int));
            assert(all.take(i + 1).last() == packages@[i as int]@);
        }
        total = total + packages[i].tools.len();
        i = i + 1;
    }
    assert(all.take(n as int) =~= all);
    total + extra
}

// ---------------------------------------------------------------------------
// Which configs are valid
// ---------------------------------------------------------------------------

/// The reference names what it needs.
pub open spec fn sound_ref(r: RefView) -> bool {
    match r {
        RefView::BuiltinName(name) => name.len() > 0,
        RefView::Builtin { name, .. } => name.len() > 0,
        RefView::Http { url, .. } => url.len() > 0,
        RefView::Script { command, .. } => command.len() > 0,
        RefView::Composite { chain, .. } => chain.len() > 0,
    }
}

/// The tool has a name, a description and a handler.
pub open spec fn sound_tool(t: ToolConfigView) -> bool {
    &&& t.name.len() > 0
    &&& t.description.len() > 0
    &&& match t.handler {
        SerializedView::Name(name) => name.len() > 0,
        SerializedView::Ref(r) => sound_ref(r),
    }
}

/// No two of the tools have one name.
pub open spec fn distinct_tools(tools: Seq<ToolConfigView>) -> bool {
    forall|i: int, j: int|
        0 <= i < j < tools.len() ==> (#[trigger] tools[i]).name != (#[trigger] tools[j]).name
}

/// The package has a name and tools, all sound and with names of their own.
pub open spec fn sound_package(p: PackageConfigView) -> bool {
    &&& p.name.len() > 0
    &&& p.tools.len() > 0
    &&& forall|i: int| 0 <= i < p.tools.len() ==> sound_tool(#[trigger] p.tools[i])
    &&& distinct_tools(p.tools)
    &&& !lacks_prefix(p.namespace)
}

/// No two of the packages have one name.
pub open spec fn distinct_packages(packages: Seq<PackageConfigView>) -> bool {
    forall|i: int, j: int|
        0 <= i < j < packages.len() ==> (#[trigger] packages[i]).name
            != (#[trigger] packages[j]).name
}

/// The config has a version, no timeout of zero, and is made of sound packages with names of
/// their own and sound tools.
pub open spec fn sound_config(c: ConfigView) -> bool {
    &&& c.version.len() > 0
    &&& !zero_timeout(c)
    &&& forall|i: int| 0 <= i < c.packages.len() ==> sound_package(#[trigger] c.packages[i])
    &&& distinct_packages(c.packages)
    &&& forall|i: int|
        0 <= i < standalone(c).len() ==> sound_tool(#[trigger] standalone(c)[i])
}

proof fn lemma_no_errors_add(a: Seq<FindingView>, b: Seq<FindingView>)
    ensures
        no_errors(a + b) == (no_errors(a) && no_errors(b)),
{
    let all = a + b;
    if no_errors(all) {
        assert forall|i: int| 0 <= i < a.len() implies (#[trigger] a[i]).severity
            != ValidationSeverity::Error by {
            assert(all[i] == a[i]);
        }
        assert forall|i: int| 0 <= i < b.len() implies (#[trigger] b[i]).severity
            != ValidationSeverity::Error by {
            assert(all[a.len() + i] == b[i]);
        }
    }
}

proof fn lemma_no_error_if(applies: bool, path: Seq<char>, message: Seq<char>, code: Seq<char>)
    ensures
        no_errors(error_if(applies, path, message, code)) == !applies,
        no_errors(warning_if(applies, path, message, code)),
{
    if applies {
        assert(error_if(applies, path, message, code)[0].severity == ValidationSeverity::Error);
    }
}

proof fn lemma_handler_findings(h: SerializedView, base: Seq<char>)
    ensures
        no_errors(handler_findings(h, base)) == match h {
            SerializedView::Name(name) => name.len() > 0,
            SerializedView::Ref(r) => sound_ref(r),
        },
{
    match h {
        SerializedView::Name(name) => lemma_no_error_if(
            name.len() == 0,
            base + ".handler"@,
            "Handler name is required"@,
            "MISSING_HANDLER_NAME"@,
        ),
        SerializedView::Ref(r) => {
            let b = base + ".handler"@;
            match r {
                RefView::BuiltinName(name) => lemma_no_error_if(
                    name.len() == 0,
                    b + ".name"@,
                    "Builtin handler name is required"@,
                    "MISSING_BUILTIN_NAME"@,
                ),
                RefView::Builtin { name, .. } => lemma_no_error_if(
                    name.len() == 0,
                    b + ".name"@,
                    "Builtin handler name is required"@,
                    "MISSING_BUILTIN_NAME"@,
                ),
                RefView::Http { url, .. } => lemma_no_error_if(
                    url.len() == 0,
                    b + ".url"@,
                    "HTTP handler URL is required"@,
                    "MISSING_HTTP_URL"@,
                ),
                RefView::Script { command, .. } => lemma_no_error_if(
                    command.len() == 0,
                    b + ".command"@,
                    "Script handler command is required"@,
                    "MISSING_SCRIPT_COMMAND"@,
                ),
                RefView::Composite { chain, .. } => lemma_no_error_if(
                    chain.len() == 0,
                    b + ".chain"@,
                    "Composite handler must have a non-empty chain array"@,
                    "INVALID_COMPOSITE_CHAIN"@,
                ),
            }
        },
    }
}

proof fn lemma_tool_findings(t: ToolConfigView, base: Seq<char>)
    ensures
        no_errors(tool_findings(t, base)) == sound_tool(t),
{
    let a = error_if(
        t.name.len() == 0,
        base + ".name"@,
        "Tool name is required"@,
        "MISSING_TOOL_NAME"@,
    );
    let b = error_if(
        t.description.len() == 0,
        base + ".description"@,
        "Tool description is required"@,
        "MISSING_TOOL_DESCRIPTION"@,
    );
    let c = warning_if(
        t.input_schema.properties.len() == 0,
        base + ".input_schema.properties"@,
        "input_schema must have at least one property"@,
        "EMPTY_PROPERTIES"@,
    );
    let d = handler_findings(t.handler, base);
    lemma_no_error_if(
        t.name.len() == 0,
        base + ".name"@,
        "Tool name is required"@,
        "MISSING_TOOL_NAME"@,
    );
    lemma_no_error_if(
        t.description.len() == 0,
        base + ".description"@,
        "Tool description is required"@,
        "MISSING_TOOL_DESCRIPTION"@,
    );
    lemma_no_error_if(
        t.input_schema.properties.len() == 0,
        base + ".input_schema.properties"@,
        "input_schema must have at least one property"@,
        "EMPTY_PROPERTIES"@,
    );
    lemma_handler_findings(t.handler, base);
    lemma_no_errors_add(a, b);
    lemma_no_errors_add(a + b, c);
    lemma_no_errors_add(a + b + c, d);
}

proof fn lemma_tools_findings(tools: Seq<ToolConfigView>, base: Seq<char>)
    ensures
        no_errors(tools_findings(tools, base)) == (distinct_tools(tools) && forall|i: int|
            0 <= i < tools.len() ==> sound_tool(#[trigger] tools[i])),
    decreases tools.len(),
{
    if tools.len() > 0 {
        let rest = tools.drop_last();
        let t = tools.last();
        let path = nth_path(base + ".tools"@, (tools.len() - 1) as nat);
        let message = "Duplicate tool name in package: "@ + t.name;
        lemma_tools_findings(rest, base);
        lemma_tool_findings(t, path);
        let dup = has_tool(rest, t.name);
        lemma_no_error_if(dup, base + ".tools"@, message, "DUPLICATE_TOOL"@);
        lemma_no_errors_add(tools_findings(rest, base), tool_findings(t, path));
        lemma_no_errors_add(
            tools_findings(rest, base) + tool_findings(t, path),
            error_if(dup, base + ".tools"@, message, "DUPLICATE_TOOL"@),
        );
        let n = tools.len() - 1;
        let good = distinct_tools(tools) && forall|i: int|
            0 <= i < tools.len() ==> sound_tool(#[trigger] tools[i]);
        let parts = distinct_tools(rest) && (forall|i: int|
            0 <= i < rest.len() ==> sound_tool(#[trigger] rest[i])) && sound_tool(t) && !dup;
        if good {
            assert forall|i: int, j: int| 0 <= i < j < rest.len() implies (#[trigger] rest[i]).name
                != (#[trigger] rest[j]).name by {
                assert(tools[i].name != tools[j].name);
            }
            assert forall|i: int| 0 <= i < rest.len() implies sound_tool(#[trigger] rest[i]) by {
                assert(sound_tool(tools[i]));
            }
            assert(sound_tool(tools[n]));
            if dup {
                let i = choose|i: int| 0 <= i < rest.len() && (#[trigger] rest[i]).name == t.name;
                assert(tools[i].name != tools[n].name);
            }
        }
        if parts {
            assert forall|i: int, j: int|
                0 <= i < j < tools.len() implies (#[trigger] tools[i]).name != (
            #[trigger] tools[j]).name by {
                assert(rest[i] == tools[i]);
                if j < n {
                    assert(rest[j] == tools[j]);
                }
            }
            assert forall|i: int| 0 <= i < tools.len() implies sound_tool(#[trigger] tools[i]) by {
                if i < n {
                    assert(rest[i] == tools[i]);
                }
            }
        }
        assert(good == parts);
    }
}

proof fn lemma_package_findings(p: PackageConfigView, base: Seq<char>)
    ensures
        no_errors(package_findings(p, base)) == sound_package(p),
{
    let a = error_if(
        p.name.len() == 0,
        base + ".name"@,
        "Package name is required"@,
        "MISSING_PACKAGE_NAME"@,
    );
    let b = error_if(
        p.tools.len() == 0,
        base + ".tools"@,
        "Package must have at least one tool"@,
        "EMPTY_PACKAGE_TOOLS"@,
    );
    let c = tools_findings(p.tools, base);
    let d = error_if(
        lacks_prefix(p.namespace),
        base + ".namespace.prefix"@,
        "Namespace prefix is required when namespace is an object"@,
        "MISSING_NAMESPACE_PREFIX"@,
    );
    lemma_no_error_if(
        p.name.len() == 0,
        base + ".name"@,
        "Package name is required"@,
        "MISSING_PACKAGE_NAME"@,
    );
    lemma_no_error_if(
        p.tools.len() == 0,
        base + ".tools"@,
        "Package must have at least one tool"@,
        "EMPTY_PACKAGE_TOOLS"@,
    );
    lemma_no_error_if(
        lacks_prefix(p.namespace),
        base + ".namespace.prefix"@,
        "Namespace prefix is required when namespace is an object"@,
        "MISSING_NAMESPACE_PREFIX"@,
    );
    lemma_tools_findings(p.tools, base);
    lemma_no_errors_add(a, b);
    lemma_no_errors_add(a + b, c);
    lemma_no_errors_add(a + b + c, d);
}

proof fn lemma_packages_findings(packages: Seq<PackageConfigView>)
    ensures
        no_errors(packages_findings(packages)) == (distinct_packages(packages) && forall|i: int|
            0 <= i < packages.len() ==> sound_package(#[trigger] packages[i])),
    decreases packages.len(),
{
    if packages.len() > 0 {
        let rest = packages.drop_last();
        let p = packages.last();
        let path = nth_path("packages"@, (packages.len() - 1) as nat);
        let message = "Duplicate package name: "@ + p.name;
        lemma_packages_findings(rest);
        lemma_package_findings(p, path);
        let dup = has_package(rest, p.name);
        lemma_no_error_if(dup, "packages"@, message, "DUPLICATE_PACKAGE"@);
        lemma_no_errors_add(packages_findings(rest), package_findings(p, path));
        lemma_no_errors_add(
            packages_findings(rest) + package_findings(p, path),
            error_if(dup, "packages"@, message, "DUPLICATE_PACKAGE"@),
        );
        let n = packages.len() - 1;
        let good = distinct_packages(packages) && forall|i: int|
            0 <= i < packages.len() ==> sound_package(#[trigger] packages[i]);
        let parts = distinct_packages(rest) && (forall|i: int|
            0 <= i < rest.len() ==> sound_package(#[trigger] rest[i])) && sound_package(p) && !dup;
        if good {
            assert forall|i: int, j: int| 0 <= i < j < rest.len() implies (#[trigger] rest[i]).name
                != (#[trigger] rest[j]).name by {
                assert(packages[i].name != packages[j].name);
            }
            assert forall|i: int| 0 <= i < rest.len() implies sound_package(#[trigger] rest[i]) by {
                assert(sound_package(packages[i]));
            }
            assert(sound_package(packages[n]));
            if dup {
                let i = choose|i: int| 0 <= i < rest.len() && (#[trigger] rest[i]).name == p.name;
                assert(packages[i].name != packages[n].name);
            }
        }
        if parts {
            assert forall|i: int, j: int|
                0 <= i < j < packages.len() implies (#[trigger] packages[i]).name != (
            #[trigger] packages[j]).name by {
                assert(rest[i] == packages[i]);
                if j < n {
                    assert(rest[j] == packages[j]);
                }
            }
            assert forall|i: int| 0 <= i < packages.len() implies sound_package(
                #[trigger] packages[i],
            ) by {
                if i < n {
                    assert(rest[i] == packages[i]);
                }
            }
        }
        assert(good == parts);
    }
}

proof fn lemma_standalone_findings(tools: Seq<ToolConfigView>)
    ensures
        no_errors(standalone_findings(tools)) == forall|i: int|
            0 <= i < tools.len() ==> sound_tool(#[trigger] tools[i]),
    decreases tools.len(),
{
    if tools.len() > 0 {
        let rest = tools.drop_last();
        let t = tools.last();
        let n = tools.len() - 1;
        let path = nth_path("standaloneTools"@, n as nat);
        lemma_standalone_findings(rest);
        lemma_tool_findings(t, path);
        lemma_no_errors_add(standalone_findings(rest), tool_findings(t, path));
        let good = forall|i: int| 0 <= i < tools.len() ==> sound_tool(#[trigger] tools[i]);
        let parts = (forall|i: int| 0 <= i < rest.len() ==> sound_tool(#[trigger] rest[i]))
            && sound_tool(t);
        if good {
            assert forall|i: int| 0 <= i < rest.len() implies sound_tool(#[trigger] rest[i]) by {
                assert(sound_tool(tools[i]));
            }
            assert(sound_tool(tools[n]));
        }
        if parts {
            assert forall|i: int| 0 <= i < tools.len() implies sound_tool(#[trigger] tools[i]) by {
                if i < n {
                    assert(rest[i] == tools[i]);
                }
            }
        }
        assert(good == parts);
    }
}

/// A config is valid just where it is sound: it has a version and no timeout of zero, every
/// package has a name of its own, at least one tool and a prefix for its namespace, and every
/// tool has a name (its own within the package), a description and a handler.
pub proof fn law_valid_config(c: ConfigView)
    ensures
        no_errors(config_findings(c)) == sound_config(c),
{
    let a = error_if(
        c.version.len() == 0,
        "version"@,
        "Missing version field"@,
        "MISSING_VERSION"@,
    );
    let b = error_if(
        zero_timeout(c),
        "config.defaultTimeout"@,
        "defaultTimeout must be a positive number"@,
        "INVALID_TIMEOUT"@,
    );
    lemma_no_error_if(
        c.version.len() == 0,
        "version"@,
        "Missing version field"@,
        "MISSING_VERSION"@,
    );
    lemma_no_error_if(
        zero_timeout(c),
        "config.defaultTimeout"@,
        "defaultTimeout must be a positive number"@,
        "INVALID_TIMEOUT"@,
    );
    lemma_packages_findings(c.packages);
    lemma_standalone_findings(standalone(c));
    lemma_no_errors_add(a, b);
    lemma_no_errors_add(a + b, packages_findings(c.packages));
    lemma_no_errors_add(
        a + b + packages_findings(c.packages),
        standalone_findings(standalone(c)),
    );
}

/// What is wrong with a tool is told, under the path of the part that is wrong: a missing name, a
/// missing description, and what its handler lacks. A schema without properties is only warned
/// of.
#[verifier::rlimit(50)]
pub proof fn law_tool_faults_are_told(t: ToolConfigView, base: Seq<char>)
    ensures
        t.name.len() == 0 ==> tool_findings(t, base).contains(
            FindingView {
                path: base + ".name"@,
                message: "Tool name is required"@,
                severity: ValidationSeverity::Error,
                code: Some("MISSING_TOOL_NAME"@),
                suggestion: None,
            },
        ),
        t.description.len() == 0 ==> tool_findings(t, base).contains(
            FindingView {
                path: base + ".description"@,
                message: "Tool description is required"@,
                severity: ValidationSeverity::Error,
                code: Some("MISSING_TOOL_DESCRIPTION"@),
                suggestion: None,
            },
        ),
        t.input_schema.properties.len() == 0 ==> tool_findings(t, base).contains(
            FindingView {
                path: base + ".input_schema.properties"@,
                message: "input_schema must have at least one property"@,
                severity: ValidationSeverity::Warning,
                code: Some("EMPTY_PROPERTIES"@),
                suggestion: None,
            },
        ),
        forall|f: FindingView|
            handler_findings(t.handler, base).contains(f) ==> #[trigger] tool_findings(
                t,
                base,
            ).contains(f),
        tool_findings(t, base).len() == (if t.name.len() == 0 {
            1int
        } else {
            0
        }) + (if t.description.len() == 0 {
            1int
        } else {
            0
        }) + (if t.input_schema.properties.len() == 0 {
            1int
        } else {
            0
        }) + handler_findings(t.handler, base).len(),
{
    let a = error_if(
        t.name.len() == 0,
        base + ".name"@,
        "Tool name is required"@,
        "MISSING_TOOL_NAME"@,
    );
    let b = error_if(
        t.description.len() == 0,
        base + ".description"@,
        "Tool description is required"@,
        "MISSING_TOOL_DESCRIPTION"@,
    );
    let c = warning_if(
        t.input_schema.properties.len() == 0,
        base + ".input_schema.properties"@,
        "input_schema must have at least one property"@,
        "EMPTY_PROPERTIES"@,
    );
    let d = handler_findings(t.handler, base);
    let all = tool_findings(t, base);
    assert(all == a + b + c + d);
    if t.name.len() == 0 {
        assert(all[0] == a[0]);
    }
    if t.description.len() == 0 {
        assert(all[a.len() as int] == b[0]);
    }
    if t.input_schema.properties.len() == 0 {
        assert(all[(a + b).len() as int] == c[0]);
    }
    assert forall|f: FindingView| d.contains(f) implies #[trigger] all.contains(f) by {
        let k = choose|k: int| 0 <= k < d.len() && d[k] == f;
        assert(all[(a + b + c).len() + k] == f);
    }
}

/// A handler without a name, an address, a command or a chain is an error, and any other handler
/// is none.
pub proof fn law_handler_faults_are_told(h: SerializedView, base: Seq<char>)
    ensures
        handler_findings(h, base).len() <= 1,
        handler_findings(h, base).len() == 1 <==> match h {
            SerializedView::Name(name) => name.len() == 0,
            SerializedView::Ref(RefView::BuiltinName(name)) => name.len() == 0,
            SerializedView::Ref(RefView::Builtin { name, .. }) => name.len() == 0,
            SerializedView::Ref(RefView::Http { url, .. }) => url.len() == 0,
            SerializedView::Ref(RefView::Script { command, .. }) => command.len() == 0,
            SerializedView::Ref(RefView::Composite { chain, .. }) => chain.len() == 0,
        },
        handler_findings(h, base).len() == 1 ==> handler_findings(h, base)[0].severity
            == ValidationSeverity::Error,
{
}

proof fn lemma_tools_findings_hold(
    tools: Seq<ToolConfigView>,
    base: Seq<char>,
    i: int,
    f: FindingView,
)
    requires
        0 <= i < tools.len(),
        tool_findings(tools[i], nth_path(base + ".tools"@, i as nat)).contains(f) || ((exists|k: int|
            0 <= k < i && (#[trigger] tools[k]).name == tools[i].name) && f == (FindingView {
            path: base + ".tools"@,
            message: "Duplicate tool name in package: "@ + tools[i].name,
            severity: ValidationSeverity::Error,
            code: Some("DUPLICATE_TOOL"@),
            suggestion: None,
        })),
    ensures
        tools_findings(tools, base).contains(f),
    decreases tools.len(),
{
    let d = tools.drop_last();
    let t = tools.last();
    let a = tools_findings(d, base);
    let b = tool_findings(t, nth_path(base + ".tools"@, (tools.len() - 1) as nat));
    let c = error_if(
        has_tool(d, t.name),
        base + ".tools"@,
        "Duplicate tool name in package: "@ + t.name,
        "DUPLICATE_TOOL"@,
    );
    let all = tools_findings(tools, base);
    assert(all == a + b + c);
    if i < d.len() {
        assert(d[i] == tools[i]);
        if exists|k: int| 0 <= k < i && (#[trigger] tools[k]).name == tools[i].name {
            let k = choose|k: int| 0 <= k < i && (#[trigger] tools[k]).name == tools[i].name;
            assert(d[k].name == d[i].name);
        }
        lemma_tools_findings_hold(d, base, i, f);
        let k = choose|k: int| 0 <= k < a.len() && a[k] == f;
        assert(all[k] == f);
    } else if b.contains(f) {
        let k = choose|k: int| 0 <= k < b.len() && b[k] == f;
        assert(all[a.len() + k] == f);
    } else {
        let k = choose|k: int| 0 <= k < i && (#[trigger] tools[k]).name == tools[i].name;
        assert(d[k].name == t.name);
        assert(c[0] == f);
        assert(all[(a + b).len() as int] == f);
    }
}

/// What is wrong with a package is told: a missing name, no tools, a namespace without a prefix,
/// what is wrong with each tool, and a tool name that stands twice.
#[verifier::rlimit(50)]
pub proof fn law_package_faults_are_told(
    p: PackageConfigView,
    base: Seq<char>,
    i: int,
    k: int,
    f: FindingView,
)
    ensures
        p.name.len() == 0 ==> package_findings(p, base).contains(
            FindingView {
                path: base + ".name"@,
                message: "Package name is required"@,
                severity: ValidationSeverity::Error,
                code: Some("MISSING_PACKAGE_NAME"@),
                suggestion: None,
            },
        ),
        p.tools.len() == 0 ==> package_findings(p, base).contains(
            FindingView {
                path: base + ".tools"@,
                message: "Package must have at least one tool"@,
                severity: ValidationSeverity::Error,
                code: Some("EMPTY_PACKAGE_TOOLS"@),
                suggestion: None,
            },
        ),
        (p.namespace matches Some(ChoiceView::Object(ns)) && ns.prefix.len() == 0)
            ==> package_findings(p, base).contains(
            FindingView {
                path: base + ".namespace.prefix"@,
                message: "Namespace prefix is required when namespace is an object"@,
                severity: ValidationSeverity::Error,
                code: Some("MISSING_NAMESPACE_PREFIX"@),
                suggestion: None,
            },
        ),
        0 <= i < p.tools.len() && tool_findings(
            p.tools[i],
            base + ".tools"@ + "["@ + decimal(i as nat) + "]"@,
        ).contains(f) ==> package_findings(p, base).contains(f),
        0 <= k < i < p.tools.len() && p.tools[k].name == p.tools[i].name ==> package_findings(
            p,
            base,
        ).contains(
            FindingView {
                path: base + ".tools"@,
                message: "Duplicate tool name in package: "@ + p.tools[i].name,
                severity: ValidationSeverity::Error,
                code: Some("DUPLICATE_TOOL"@),
                suggestion: None,
            },
        ),
{
    let a = error_if(
        p.name.len() == 0,
        base + ".name"@,
        "Package name is required"@,
        "MISSING_PACKAGE_NAME"@,
    );
    let b = error_if(
        p.tools.len() == 0,
        base + ".tools"@,
        "Package must have at least one tool"@,
        "EMPTY_PACKAGE_TOOLS"@,
    );
    let c = tools_findings(p.tools, base);
    let d = error_if(
        lacks_prefix(p.namespace),
        base + ".namespace.prefix"@,
        "Namespace prefix is required when namespace is an object"@,
        "MISSING_NAMESPACE_PREFIX"@,
    );
    let all = package_findings(p, base);
    assert(all == a + b + c + d);
    if p.name.len() == 0 {
        assert(all[0] == a[0]);
    }
    if p.tools.len() == 0 {
        assert(all[a.len() as int] == b[0]);
    }
    if lacks_prefix(p.namespace) {
        assert(all[(a + b + c).len() as int] == d[0]);
    }
    if 0 <= i < p.tools.len() {
        if tool_findings(p.tools[i], nth_path(base + ".tools"@, i as nat)).contains(f) {
            lemma_tools_findings_hold(p.tools, base, i, f);
            let j = choose|j: int| 0 <= j < c.len() && c[j] == f;
            assert(all[(a + b).len() + j] == f);
        }
        if 0 <= k < i && p.tools[k].name == p.tools[i].name {
            let g = FindingView {
                path: base + ".tools"@,
                message: "Duplicate tool name in package: "@ + p.tools[i].name,
                severity: ValidationSeverity::Error,
                code: Some("DUPLICATE_TOOL"@),
                suggestion: None,
            };
            lemma_tools_findings_hold(p.tools, base, i, g);
            let j = choose|j: int| 0 <= j < c.len() && c[j] == g;
            assert(all[(a + b).len() + j] == g);
        }
    }
}

proof fn lemma_packages_findings_hold(packages: Seq<PackageConfigView>, i: int, f: FindingView)
    requires
        0 <= i < packages.len(),
        package_findings(packages[i], nth_path("packages"@, i as nat)).contains(f) || ((
        exists|k: int| 0 <= k < i && (#[trigger] packages[k]).name == packages[i].name) && f == (
        FindingView {
            path: "packages"@,
            message: "Duplicate package name: "@ + packages[i].name,
            severity: ValidationSeverity::Error,
            code: Some("DUPLICATE_PACKAGE"@),
            suggestion: None,
        })),
    ensures
        packages_findings(packages).contains(f),
    decreases packages.len(),
{
    let d = packages.drop_last();
    let p = packages.last();
    let a = packages_findings(d);
    let b = package_findings(p, nth_path("packages"@, (packages.len() - 1) as nat));
    let c = error_if(
        has_package(d, p.name),
        "packages"@,
        "Duplicate package name: "@ + p.name,
        "DUPLICATE_PACKAGE"@,
    );
    let all = packages_findings(packages);
    assert(all == a + b + c);
    if i < d.len() {
        assert(d[i] == packages[i]);
        if exists|k: int| 0 <= k < i && (#[trigger] packages[k]).name == packages[i].name {
            let k = choose|k: int| 0 <= k < i && (#[trigger] packages[k]).name == packages[i].name;
            assert(d[k].name == d[i].name);
        }
        lemma_packages_findings_hold(d, i, f);
        let k = choose|k: int| 0 <= k < a.len() && a[k] == f;
        assert(all[k] == f);
    } else if b.contains(f) {
        let k = choose|k: int| 0 <= k < b.len() && b[k] == f;
        assert(all[a.len() + k] == f);
    } else {
        let k = choose|k: int| 0 <= k < i && (#[trigger] packages[k]).name == packages[i].name;
        assert(d[k].name == p.name);
        assert(c[0] == f);
        assert(all[(a + b).len() as int] == f);
    }
}

proof fn lemma_standalone_findings_hold(tools: Seq<ToolConfigView>, i: int, f: FindingView)
    requires
        0 <= i < tools.len(),
        tool_findings(tools[i], nth_path("standaloneTools"@, i as nat)).contains(f),
    ensures
        standalone_findings(tools).contains(f),
    decreases tools.len(),
{
    let d = tools.drop_last();
    let a = standalone_findings(d);
    let b = tool_findings(
        tools.last(),
        nth_path("standaloneTools"@, (tools.len() - 1) as nat),
    );
    let all = standalone_findings(tools);
    assert(all == a + b);
    if i < d.len() {
        assert(d[i] == tools[i]);
        lemma_standalone_findings_hold(d, i, f);
        let k = choose|k: int| 0 <= k < a.len() && a[k] == f;
        assert(all[k] == f);
    } else {
        let k = choose|k: int| 0 <= k < b.len() && b[k] == f;
        assert(all[a.len() + k] == f);
    }
}

/// What is wrong with a configuration is told: a missing version, a timeout of 0, what is wrong
/// with each package and each standalone tool, and a package name that stands twice.
#[verifier::rlimit(50)]
pub proof fn law_config_faults_are_told(c: ConfigView, i: int, k: int, f: FindingView)
    ensures
        c.version.len() == 0 ==> config_findings(c).contains(
            FindingView {
                path: "version"@,
                message: "Missing version field"@,
                severity: ValidationSeverity::Error,
                code: Some("MISSING_VERSION"@),
                suggestion: None,
            },
        ),
        (c.config matches Some(s) && s.default_timeout == Some(0u64)) ==> config_findings(
            c,
        ).contains(
            FindingView {
                path: "config.defaultTimeout"@,
                message: "defaultTimeout must be a positive number"@,
                severity: ValidationSeverity::Error,
                code: Some("INVALID_TIMEOUT"@),
                suggestion: None,
            },
        ),
        0 <= i < c.packages.len() && package_findings(
            c.packages[i],
            "packages"@ + "["@ + decimal(i as nat) + "]"@,
        ).contains(f) ==> config_findings(c).contains(f),
        0 <= k < i < c.packages.len() && c.packages[k].name == c.packages[i].name
            ==> config_findings(c).contains(
            FindingView {
                path: "packages"@,
                message: "Duplicate package name: "@ + c.packages[i].name,
                severity: ValidationSeverity::Error,
                code: Some("DUPLICATE_PACKAGE"@),
                suggestion: None,
            },
        ),
        (c.standalone_tools matches Some(tools) && 0 <= i < tools.len() && tool_findings(
            tools[i],
            "standaloneTools"@ + "["@ + decimal(i as nat) + "]"@,
        ).contains(f)) ==> config_findings(c).contains(f),
{
    let a = error_if(
        c.version.len() == 0,
        "version"@,
        "Missing version field"@,
        "MISSING_VERSION"@,
    );
    let b = error_if(
        zero_timeout(c),
        "config.defaultTimeout"@,
        "defaultTimeout must be a positive number"@,
        "INVALID_TIMEOUT"@,
    );
    let p = packages_findings(c.packages);
    let s = standalone_findings(standalone(c));
    assert(config_findings(c) == a + b + p + s);
    if c.version.len() == 0 {
        assert(a.contains(a[0]));
        lemma_in_parts(a, b, p, s, a[0]);
    }
    if zero_timeout(c) {
        assert(b.contains(b[0]));
        lemma_in_parts(a, b, p, s, b[0]);
    }
    lemma_in_parts(a, b, p, s, f);
    if 0 <= i < c.packages.len() {
        if package_findings(c.packages[i], nth_path("packages"@, i as nat)).contains(f) {
            lemma_packages_findings_hold(c.packages, i, f);
        }
        if 0 <= k < i && c.packages[k].name == c.packages[i].name {
            let g = FindingView {
                path: "packages"@,
                message: "Duplicate package name: "@ + c.packages[i].name,
                severity: ValidationSeverity::Error,
                code: Some("DUPLICATE_PACKAGE"@),
                suggestion: None,
            };
            lemma_packages_findings_hold(c.packages, i, g);
            lemma_in_parts(a, b, p, s, g);
        }
    }
    if 0 <= i < standalone(c).len() {
        if tool_findings(standalone(c)[i], nth_path("standaloneTools"@, i as nat)).contains(f) {
            lemma_standalone_findings_hold(standalone(c), i, f);
        }
    }
}

proof fn lemma_in_parts(
    a: Seq<FindingView>,
    b: Seq<FindingView>,
    c: Seq<FindingView>,
    d: Seq<FindingView>,
    f: FindingView,
)
    ensures
        a.contains(f) || b.contains(f) || c.contains(f) || d.contains(f) ==> (a + b + c
            + d).contains(f),
{
    let all = a + b + c + d;
    if a.contains(f) {
        let j = choose|j: int| 0 <= j < a.len() && a[j] == f;
        assert(all[j] == f);
    }
    if b.contains(f) {
        let j = choose|j: int| 0 <= j < b.len() && b[j] == f;
        assert(all[a.len() + j] == f);
    }
    if c.contains(f) {
        let j = choose|j: int| 0 <= j < c.len() && c[j] == f;
        assert(all[(a + b).len() + j] == f);
    }
    if d.contains(f) {
        let j = choose|j: int| 0 <= j < d.len() && d[j] == f;
        assert(all[(a + b + c).len() + j] == f);
    }
}

/// The tools of a configuration are counted over its packages and its standalone tools.
pub proof fn law_tools_are_counted(packages: Seq<PackageConfigView>, p: PackageConfigView)
    ensures
        tools_in(Seq::empty()) == 0,
        tools_in(packages.push(p)) == tools_in(packages) + p.tools.len(),
{
    assert(packages.push(p).drop_last() =~= packages);
}

} // verus!
