//! Tool registry: stores tools and packages with namespace support.
use vstd::prelude::*;

use crate::error::ErrorView;
use crate::error::ToolError;
use crate::text::clone_strings;
use crate::text::listed;
use crate::text::same;
use crate::text::views;
use crate::types::now_millis;
use crate::types::tools_view;
use crate::types::optional_text;
use crate::types::ConflictStrategy;
use crate::types::PackageView;
use crate::types::ResolvedToolName;
use crate::types::SchemaView;
use crate::types::Tool;
use crate::types::ToolDefinition;
use crate::types::ToolPackage;
use crate::types::ToolView;
use crate::types::DEFAULT_NAMESPACE_SEPARATOR;
use crate::utils::namespace::full_name;
use crate::utils::namespace::namespace_of;
use crate::utils::namespace::parse_tool_name;
use crate::utils::namespace::resolve_full_tool_name;
use crate::utils::namespace::short_name;

verus! {

/// Entry for a registered tool.
#[derive(Debug, Clone)]
pub struct RegisteredTool {
    /// The tool itself.
    pub tool: Tool,
    /// Optional package name (for grouping).
    pub package_name: Option<String>,
    /// Wall-clock timestamp (ms).
    pub registered_at: i64,
}

/// Entry for a registered package.
#[derive(Debug)]
pub struct RegisteredPackage {
    /// The package itself.
    pub pkg: ToolPackage,
    /// Wall-clock timestamp (ms).
    pub registered_at: i64,
    /// Tools owned by this package (in their fully-qualified form).
    pub tool_names: Vec<String>,
}

/// What the registry knows of a tool, but for the time.
pub struct ToolEntry {
    /// The tool.
    pub tool: ToolView,
    /// The package that it came with.
    pub package: Option<Seq<char>>,
}

/// What the registry knows of a package, but for the time.
pub struct PackageEntry {
    /// The package.
    pub pkg: PackageView,
    /// The full names of its tools.
    pub tool_names: Seq<Seq<char>>,
}

impl View for RegisteredTool {
    type V = ToolEntry;

    open spec fn view(&self) -> ToolEntry {
        ToolEntry { tool: self.tool@, package: optional_text(self.package_name) }
    }
}

impl View for RegisteredPackage {
    type V = PackageEntry;

    open spec fn view(&self) -> PackageEntry {
        PackageEntry { pkg: self.pkg@, tool_names: views(self.tool_names@) }
    }
}

// ---------------------------------------------------------------------------
// Lists of entries
// ---------------------------------------------------------------------------

/// A tool of this name is in the list.
pub open spec fn has_name(v: Seq<ToolEntry>, name: Seq<char>) -> bool {
    exists|i: int| 0 <= i < v.len() && (#[trigger] v[i]).tool.name == name
}

/// The position of the first tool of this name; the length of the list where there is none.
pub open spec fn name_index(v: Seq<ToolEntry>, name: Seq<char>) -> int
    decreases v.len(),
{
    if v.len() == 0 {
        0
    } else if v[0].tool.name == name {
        0
    } else {
        1 + name_index(v.skip(1), name)
    }
}

/// The tool of this name.
pub open spec fn lookup(v: Seq<ToolEntry>, name: Seq<char>) -> Option<ToolEntry> {
    if name_index(v, name) < v.len() {
        Some(v[name_index(v, name)])
    } else {
        None
    }
}

/// The list with a tool in it: in the place of the one that has its name, or at the end.
pub open spec fn put(v: Seq<ToolEntry>, e: ToolEntry) -> Seq<ToolEntry> {
    if name_index(v, e.tool.name) < v.len() {
        v.update(name_index(v, e.tool.name), e)
    } else {
        v.push(e)
    }
}

/// The list without the tools of these names.
pub open spec fn without(v: Seq<ToolEntry>, names: Seq<Seq<char>>) -> Seq<ToolEntry> {
    v.filter(|e: ToolEntry| !names.contains(e.tool.name))
}

/// No two tools have one name.
pub open spec fn distinct_names(v: Seq<ToolEntry>) -> bool {
    forall|i: int, j: int|
        0 <= i < j < v.len() ==> (#[trigger] v[i]).tool.name != (#[trigger] v[j]).tool.name
}

/// The position of the first package of this name; the length of the list where there is none.
pub open spec fn package_index(v: Seq<PackageEntry>, name: Seq<char>) -> int
    decreases v.len(),
{
    if v.len() == 0 {
        0
    } else if v[0].pkg.name == name {
        0
    } else {
        1 + package_index(v.skip(1), name)
    }
}

/// No two packages have one name.
pub open spec fn distinct_packages(v: Seq<PackageEntry>) -> bool {
    forall|i: int, j: int|
        0 <= i < j < v.len() ==> (#[trigger] v[i]).pkg.name != (#[trigger] v[j]).pkg.name
}

/// The first position is the one before which there is no such name.
pub proof fn lemma_name_index(v: Seq<ToolEntry>, i: int, name: Seq<char>)
    requires
        0 <= i <= v.len(),
        forall|k: int| 0 <= k < i ==> (#[trigger] v[k]).tool.name != name,
        i < v.len() ==> v[i].tool.name == name,
    ensures
        name_index(v, name) == i,
    decreases v.len(),
{
    if v.len() > 0 && v[0].tool.name != name {
        assert forall|k: int| 0 <= k < i - 1 implies (#[trigger] v.skip(1)[k]).tool.name
            != name by {
            assert(v[k + 1].tool.name != name);
        }
        lemma_name_index(v.skip(1), i - 1, name);
    }
}

/// What the first position of a name says.
pub proof fn lemma_name_index_bounds(v: Seq<ToolEntry>, name: Seq<char>)
    ensures
        0 <= name_index(v, name) <= v.len(),
        forall|k: int| 0 <= k < name_index(v, name) ==> (#[trigger] v[k]).tool.name != name,
        name_index(v, name) < v.len() ==> v[name_index(v, name)].tool.name == name,
    decreases v.len(),
{
    if v.len() > 0 && v[0].tool.name != name {
        lemma_name_index_bounds(v.skip(1), name);
        assert forall|k: int| 0 <= k < name_index(v, name) implies (#[trigger] v[k]).tool.name
            != name by {
            if k > 0 {
                assert(v.skip(1)[k - 1].tool.name != name);
            }
        }
    }
}

/// The first position is the one before which there is no such name.
pub proof fn lemma_package_index(v: Seq<PackageEntry>, i: int, name: Seq<char>)
    requires
        0 <= i <= v.len(),
        forall|k: int| 0 <= k < i ==> (#[trigger] v[k]).pkg.name != name,
        i < v.len() ==> v[i].pkg.name == name,
    ensures
        package_index(v, name) == i,
    decreases v.len(),
{
    if v.len() > 0 && v[0].pkg.name != name {
        assert forall|k: int| 0 <= k < i - 1 implies (#[trigger] v.skip(1)[k]).pkg.name
            != name by {
            assert(v[k + 1].pkg.name != name);
        }
        lemma_package_index(v.skip(1), i - 1, name);
    }
}

/// The models of registered tools.
pub open spec fn entries_view(v: Seq<RegisteredTool>) -> Seq<ToolEntry> {
    v.map_values(|e: RegisteredTool| e@)
}

/// The models of registered packages.
pub open spec fn package_entries_view(v: Seq<RegisteredPackage>) -> Seq<PackageEntry> {
    v.map_values(|e: RegisteredPackage| e@)
}

// ---------------------------------------------------------------------------
// The registry
// ---------------------------------------------------------------------------

/// What a registry holds.
pub struct RegistryView {
    /// The tools, in the order in which their names came.
    pub tools: Seq<ToolEntry>,
    /// The packages, in the order in which they came.
    pub packages: Seq<PackageEntry>,
    /// What happens when a name is taken.
    pub conflict_strategy: ConflictStrategy,
    /// The separator in names.
    pub default_separator: char,
}

/// Registry of tools and packages.
#[derive(Debug)]
pub struct ToolRegistryImpl {
    tools: Vec<RegisteredTool>,
    packages: Vec<RegisteredPackage>,
    conflict_strategy: ConflictStrategy,
    default_separator: char,
}

impl View for ToolRegistryImpl {
    type V = RegistryView;

    closed spec fn view(&self) -> RegistryView {
        RegistryView {
            tools: entries_view(self.tools@),
            packages: package_entries_view(self.packages@),
            conflict_strategy: self.conflict_strategy,
            default_separator: self.default_separator,
        }
    }
}

/// No name is registered twice.
pub open spec fn registry_wf(r: RegistryView) -> bool {
    distinct_names(r.tools) && distinct_packages(r.packages)
}

/// Registering a tool fails.
pub open spec fn register_fails(r: RegistryView, name: Seq<char>) -> bool {
    has_name(r.tools, name) && r.conflict_strategy == ConflictStrategy::Error
}

/// The tools after one more was registered without failing.
pub open spec fn tools_after(r: RegistryView, e: ToolEntry) -> Seq<ToolEntry> {
    if has_name(r.tools, e.tool.name) && r.conflict_strategy != ConflictStrategy::Override {
        r.tools
    } else {
        put(r.tools, e)
    }
}

/// The tool of a package, under its full name.
pub open spec fn entry_of(t: ToolView, p: PackageView) -> ToolEntry {
    ToolEntry {
        tool: ToolView { name: full_name(t.name, p.namespace), ..t },
        package: Some(p.name),
    }
}

/// The registry after the first tools of a package, or the name at which it fails.
pub open spec fn with_tools(r: RegistryView, p: PackageView, n: int) -> Result<
    RegistryView,
    Seq<char>,
>
    decreases n,
{
    if n <= 0 {
        Ok(r)
    } else {
        match with_tools(r, p, n - 1) {
            Err(name) => Err(name),
            Ok(mid) => {
                let e = entry_of(p.tools[n - 1], p);
                if register_fails(mid, e.tool.name) {
                    Err(e.tool.name)
                } else {
                    Ok(RegistryView { tools: tools_after(mid, e), ..mid })
                }
            },
        }
    }
}

/// The full names of the tools of a package.
pub open spec fn package_tool_names(p: PackageView) -> Seq<Seq<char>> {
    p.tools.map_values(|t: ToolView| full_name(t.name, p.namespace))
}

/// The registry after a package was registered, or why it was not.
pub open spec fn with_package(r: RegistryView, p: PackageView) -> Result<RegistryView, ErrorView> {
    if package_index(r.packages, p.name) < r.packages.len() {
        Err(ErrorView::PackageAlreadyExists(p.name))
    } else {
        match with_tools(r, p, p.tools.len() as int) {
            Err(name) => Err(ErrorView::ToolAlreadyExists(name)),
            Ok(mid) => Ok(
                RegistryView {
                    packages: mid.packages.push(
                        PackageEntry { pkg: p, tool_names: package_tool_names(p) },
                    ),
                    ..mid
                },
            ),
        }
    }
}

/// What is to be warned of when a tool gets registered: that its name is taken, where the
/// conflict strategy asks for a warning, and that it is deprecated, where it is taken in.
pub open spec fn tool_warnings(r: RegistryView, t: ToolView) -> Seq<Seq<char>> {
    if has_name(r.tools, t.name) && r.conflict_strategy == ConflictStrategy::Warn {
        seq!["Tool already exists: "@ + t.name + ", skipping"@]
    } else if t.deprecated && (!has_name(r.tools, t.name) || r.conflict_strategy
        == ConflictStrategy::Override) {
        seq!["Tool is deprecated: "@ + t.name]
    } else {
        Seq::empty()
    }
}

/// What is to be warned of when the first tools of a package get registered.
pub open spec fn warnings_up_to(r: RegistryView, p: PackageView, n: int) -> Seq<Seq<char>>
    decreases n,
{
    if n <= 0 {
        Seq::empty()
    } else {
        warnings_up_to(r, p, n - 1) + tool_warnings(
            with_tools(r, p, n - 1)->Ok_0,
            entry_of(p.tools[n - 1], p).tool,
        )
    }
}

/// What is to be warned of when a package gets registered: what there is to be said of its
/// tools, one after the other; nothing where the package is refused.
pub open spec fn package_warnings(r: RegistryView, p: PackageView) -> Seq<Seq<char>> {
    if with_package(r, p) is Ok {
        warnings_up_to(r, p, p.tools.len() as int)
    } else {
        Seq::empty()
    }
}

/// The hooks that a package wants to be run around each call of its tools.
#[derive(Debug, Clone, Copy, PartialEq, Eq, Structural)]
pub struct PackageHooks {
    /// The number of the hook to be run before the call.
    pub before: Option<u64>,
    /// The number of the hook to be run after the call.
    pub after: Option<u64>,
}

/// The hooks around the calls of a tool: those of the package that its entry names. A tool
/// that is not there, that came without a package, or whose package is not registered has
/// none.
pub open spec fn hooks_around(r: RegistryView, name: Seq<char>) -> PackageHooks {
    let none = PackageHooks { before: None, after: None };
    match lookup(r.tools, name) {
        Some(ToolEntry { package: Some(p), .. }) => {
            let i = package_index(r.packages, p);
            if i < r.packages.len() {
                PackageHooks {
                    before: r.packages[i].pkg.before_execute,
                    after: r.packages[i].pkg.after_execute,
                }
            } else {
                none
            }
        },
        _ => none,
    }
}

/// The registry after a package was unregistered.
pub open spec fn without_package(r: RegistryView, name: Seq<char>) -> RegistryView {
    let i = package_index(r.packages, name);
    RegistryView {
        tools: without(r.tools, r.packages[i].tool_names),
        packages: r.packages.remove(i),
        ..r
    }
}

/// The model of a definition.
pub struct DefinitionView {
    /// Name.
    pub name: Seq<char>,
    /// Description.
    pub description: Seq<char>,
    /// Input schema.
    pub input_schema: SchemaView,
    /// Structured outputs.
    pub strict: Option<bool>,
}

impl View for ToolDefinition {
    type V = DefinitionView;

    open spec fn view(&self) -> DefinitionView {
        DefinitionView {
            name: self.name@,
            description: self.description@,
            input_schema: self.input_schema@,
            strict: self.strict,
        }
    }
}

/// The definition of a tool.
pub open spec fn definition_of(t: ToolView) -> DefinitionView {
    DefinitionView {
        name: t.name,
        description: t.description,
        input_schema: t.input_schema,
        strict: t.strict,
    }
}

impl ToolRegistryImpl {
    /// Construct an empty registry.
    pub fn new() -> (r: Self)
        ensures
            r@ == (RegistryView {
                tools: Seq::empty(),
                packages: Seq::empty(),
                conflict_strategy: ConflictStrategy::Error,
                default_separator: DEFAULT_NAMESPACE_SEPARATOR,
            }),
    {
        ToolRegistryImpl::with_config(ConflictStrategy::Error, DEFAULT_NAMESPACE_SEPARATOR)
    }

    /// Construct with explicit configuration.
    pub fn with_config(conflict_strategy: ConflictStrategy, default_separator: char) -> (r: Self)
        ensures
            r@ == (RegistryView {
                tools: Seq::empty(),
                packages: Seq::empty(),
                conflict_strategy,
                default_separator,
            }),
    {
        let r = ToolRegistryImpl {
            tools: Vec::new(),
            packages: Vec::new(),
            conflict_strategy,
            default_separator,
        };
        assert(r@.tools =~= Seq::<ToolEntry>::empty());
        assert(r@.packages =~= Seq::<PackageEntry>::empty());
        r
    }

    /// Sets what happens when a name is taken, and the separator in names.
    pub fn configure(&mut self, conflict_strategy: ConflictStrategy, default_separator: char)
        ensures
            final(self)@ == (RegistryView { conflict_strategy, default_separator, ..old(self)@ }),
    {
        self.conflict_strategy = conflict_strategy;
        self.default_separator = default_separator;
    }

    fn find_tool(&self, name: &str) -> (r: usize)
        ensures
            r as int == name_index(self@.tools, name@),
            r <= self.tools@.len(),
            (r < self.tools@.len()) == has_name(self@.tools, name@),
    {
        let ghost all = entries_view(self.tools@);
        let n = self.tools.len();
        let mut i: usize = 0;
        while i < n
            invariant
                i <= n,
                n == self.tools@.len(),
                all == entries_view(self.tools@),
                forall|k: int| 0 <= k < i ==> (#[trigger] all[k]).tool.name != name@,
            decreases n - i,
        {
            if same(self.tools[i].tool.name.as_str(), name) {
                assert(all[i as int].tool.name == name@);
                proof {
                    lemma_name_index(all, i as int, name@);
                }
                return i;
            }
            i = i + 1;
        }
        proof {
            lemma_name_index(all, n as int, name@);
        }
        n
    }

    fn find_package(&self, name: &str) -> (r: usize)
        ensures
            r as int == package_index(self@.packages, name@),
            r <= self.packages@.len(),
            r < self.packages@.len() ==> self@.packages[r as int].pkg.name == name@,
            forall|k: int| 0 <= k < r ==> (#[trigger] self@.packages[k]).pkg.name != name@,
    {
        let ghost all = package_entries_view(self.packages@);
        let n = self.packages.len();
        let mut i: usize = 0;
        while i < n
            invariant
                i <= n,
                n == self.packages@.len(),
                all == package_entries_view(self.packages@),
                forall|k: int| 0 <= k < i ==> (#[trigger] all[k]).pkg.name != name@,
            decreases n - i,
        {
            if same(self.packages[i].pkg.name.as_str(), name) {
                assert(all[i as int].pkg.name == name@);
                proof {
                    lemma_package_index(all, i as int, name@);
                }
                return i;
            }
            i = i + 1;
        }
        proof {
            lemma_package_index(all, n as int, name@);
        }
        n
    }

    /// Register a single tool. A name that is taken is a matter of the conflict strategy.
    pub fn register_tool(&mut self, tool: Tool, package_name: Option<&str>) -> (r: Result<
        (),
        ToolError,
    >)
        requires
            registry_wf(old(self)@),
        ensures
            registry_wf(final(self)@),
            match r {
                Err(e) => register_fails(old(self)@, tool@.name) && e@
                    == ErrorView::ToolAlreadyExists(tool@.name) && final(self)@ == old(self)@,
                Ok(_) => !register_fails(old(self)@, tool@.name) && final(self)@ == (RegistryView {
                    tools: tools_after(
                        old(self)@,
                        ToolEntry {
                            tool: tool@,
                            package: match package_name {
                                Some(p) => Some(p@),
                                None => None,
                            },
                        },
                    ),
                    ..old(self)@
                }),
            },
    {
        let ghost before = entries_view(self.tools@);
        let i = self.find_tool(tool.name.as_str());
        let n = self.tools.len();
        if i < n {
            match self.conflict_strategy {
                ConflictStrategy::Error => {
                    return Err(ToolError::tool_already_exists(tool.name.as_str()));
                },
                ConflictStrategy::Warn => {
                    return Ok(());
                },
                ConflictStrategy::Skip => {
                    return Ok(());
                },
                ConflictStrategy::Override => {},
            }
        }
        let package = match package_name {
            Some(p) => Some(String::from_str(p)),
            None => None,
        };
        let entry = RegisteredTool { tool, package_name: package, registered_at: now_millis() };
        let ghost e = entry@;
        if i < n {
            self.tools.set(i, entry);
            assert(entries_view(self.tools@) =~= before.update(i as int, e));
        } else {
            self.tools.push(entry);
            assert(entries_view(self.tools@) =~= before.push(e));
        }
        proof {
            lemma_put_distinct(before, e);
        }
        Ok(())
    }

    /// The hooks that are to be run around each call of a tool.
    pub fn package_hooks(&self, name: &str) -> (r: PackageHooks)
        ensures
            r == hooks_around(self@, name@),
    {
        let i = self.find_tool(name);
        if i < self.tools.len() {
            assert(self@.tools[i as int] == self.tools@[i as int]@);
            if let Some(package) = &self.tools[i].package_name {
                let k = self.find_package(package.as_str());
                if k < self.packages.len() {
                    assert(self@.packages[k as int] == self.packages@[k as int]@);
                    return PackageHooks {
                        before: self.packages[k].pkg.before_execute,
                        after: self.packages[k].pkg.after_execute,
                    };
                }
            }
        }
        PackageHooks { before: None, after: None }
    }

    fn push_warning(&self, taken: bool, name: &str, deprecated: bool, out: &mut Vec<String>)
        ensures
            forall|r: RegistryView, t: ToolView|
                r.conflict_strategy == self@.conflict_strategy && taken == has_name(
                    r.tools,
                    t.name,
                ) && t.name == name@ && t.deprecated == deprecated ==> views(final(out)@)
                    == views(old(out)@) + #[trigger] tool_warnings(r, t),
    {
        let ghost first = views(out@);
        if taken {
            match self.conflict_strategy {
                ConflictStrategy::Warn => {
                    let mut m = String::from_str("Tool already exists: ");
                    m.append(name);
                    m.append(", skipping");
                    out.push(m);
                    assert(views(out@) =~= first + seq![m@]);
                    return;
                },
                ConflictStrategy::Override => {},
                ConflictStrategy::Error => {
                    assert(first + Seq::empty() =~= first);
                    return;
                },
                ConflictStrategy::Skip => {
                    assert(first + Seq::empty() =~= first);
                    return;
                },
            }
        }
        if deprecated {
            let mut m = String::from_str("Tool is deprecated: ");
            m.append(name);
            out.push(m);
            assert(views(out@) =~= first + seq![m@]);
        } else {
            assert(first + Seq::empty() =~= first);
        }
    }

    /// The warnings that go with the registration of a tool.
    pub fn tool_warnings(&self, tool: &Tool) -> (r: Vec<String>)
        ensures
            views(r@) == tool_warnings(self@, tool@),
    {
        let mut out: Vec<String> = Vec::new();
        let taken = self.has(tool.name.as_str());
        self.push_warning(taken, tool.name.as_str(), tool.deprecated, &mut out);
        assert(Seq::<Seq<char>>::empty() + tool_warnings(self@, tool@) =~= tool_warnings(
            self@,
            tool@,
        ));
        out
    }

    /// The warnings that go with the registration of a package.
    pub fn package_warnings(&self, pkg: &ToolPackage) -> (r: Vec<String>)
        ensures
            views(r@) == package_warnings(self@, pkg@),
    {
        let ghost start = self@;
        let ghost p = pkg@;
        let mut out: Vec<String> = Vec::new();
        assert(views(out@) =~= Seq::<Seq<char>>::empty());
        let at = self.find_package(pkg.name.as_str());
        if at < self.packages.len() {
            return out;
        }
        let mut names: Vec<String> = Vec::new();
        let n = pkg.tools.len();
        let mut i: usize = 0;
        assert(views(names@) =~= package_tool_names(p).take(0));
        while i < n
            invariant
                i <= n,
                n == pkg.tools@.len(),
                p == pkg@,
                start == self@,
                with_tools(start, p, i as int) is Ok,
                views(names@) == package_tool_names(p).take(i as int),
                views(out@) == warnings_up_to(start, p, i as int),
            decreases n - i,
        {
            let ghost mid = with_tools(start, p, i as int)->Ok_0;
            let full = resolve_full_tool_name(pkg.tools[i].name.as_str(), pkg.namespace.as_ref());
            assert(p.tools[i as int] == pkg.tools@[i as int]@);
            let ghost e = entry_of(p.tools[i as int], p);
            let taken = self.has(full.as_str()) || listed(&names, full.as_str());
            proof {
                lemma_with_tools_keeps(start, p, i as int);
                lemma_names_after(start, p, i as int, full@);
            }
            if taken {
                match self.conflict_strategy {
                    ConflictStrategy::Error => {
                        assert(with_tools(start, p, i + 1) is Err);
                        proof {
                            lemma_with_tools_fails(start, p, i + 1, n as int);
                        }
                        let none: Vec<String> = Vec::new();
                        assert(views(none@) =~= Seq::<Seq<char>>::empty());
                        return none;
                    },
                    _ => {},
                }
            }
            self.push_warning(taken, full.as_str(), pkg.tools[i].deprecated, &mut out);
            assert(views(out@) == warnings_up_to(start, p, i as int) + tool_warnings(mid, e.tool));
            let ghost done = views(names@);
            names.push(full);
            assert(views(names@) =~= done.push(full@));
            assert(views(names@) =~= package_tool_names(p).take(i + 1));
            i = i + 1;
        }
        out
    }

    fn remove_tools(&mut self, names: &Vec<String>)
        requires
            registry_wf(old(self)@),
        ensures
            registry_wf(final(self)@),
            final(self)@ == (RegistryView {
                tools: without(old(self)@.tools, views(names@)),
                ..old(self)@
            }),
    {
        let ghost before = entries_view(self.tools@);
        let ghost p = |e: ToolEntry| !views(names@).contains(e.tool.name);
        let mut rest: Vec<RegisteredTool> = Vec::new();
        let mut old_tools: Vec<RegisteredTool> = Vec::new();
        std::mem::swap(&mut old_tools, &mut self.tools);
        assert(before.take(0).filter(p) =~= Seq::<ToolEntry>::empty()) by {
            reveal(Seq::filter);
        }
        assert(entries_view(rest@) =~= Seq::<ToolEntry>::empty());
        let ghost source = old_tools@;
        for entry in it: old_tools
            invariant
                it.seq() == source,
                before == entries_view(source),
                p == (|e: ToolEntry| !views(names@).contains(e.tool.name)),
                entries_view(rest@) == before.take(it.index() as int).filter(p),
        {
            let ghost done = rest@;
            let ghost k = it.index() as int;
            proof {
                assert(before.take(k + 1) =~= before.take(k).push(before[k]));
                before.take(k).lemma_filter_push(before[k], p);
                assert(before[k] == entry@);
            }
            if !listed(names, entry.tool.name.as_str()) {
                rest.push(entry);
                assert(entries_view(rest@) =~= entries_view(done).push(entry@));
            }
        }
        assert(before.take(before.len() as int) =~= before);
        self.tools = rest;
        proof {
            lemma_without_distinct(before, p);
        }
    }

    /// Register a whole package. Returns the list of fully-qualified tool names. Where one of
    /// the tools cannot be registered, none is.
    pub fn register_package(&mut self, pkg: ToolPackage) -> (r: Result<Vec<String>, ToolError>)
        requires
            registry_wf(old(self)@),
        ensures
            registry_wf(final(self)@),
            match r {
                Err(e) => with_package(old(self)@, pkg@) is Err && e@ == with_package(
                    old(self)@,
                    pkg@,
                )->Err_0 && final(self)@ == old(self)@,
                Ok(names) => with_package(old(self)@, pkg@) == Ok::<_, ErrorView>(final(self)@)
                    && views(names@) == package_tool_names(pkg@),
            },
    {
        let ghost start = self@;
        let ghost p = pkg@;
        let at = self.find_package(pkg.name.as_str());
        if at < self.packages.len() {
            return Err(ToolError::package_already_exists(pkg.name.as_str()));
        }
        let mut names: Vec<String> = Vec::new();
        let n = pkg.tools.len();
        let mut i: usize = 0;
        assert(views(names@) =~= package_tool_names(p).take(0));
        while i < n
            invariant
                i <= n,
                n == pkg.tools@.len(),
                p == pkg@,
                registry_wf(start),
                registry_wf(self@),
                package_index(start.packages, p.name) >= start.packages.len(),
                with_tools(start, p, i as int) == Ok::<_, Seq<char>>(self@),
                views(names@) == package_tool_names(p).take(i as int),
                start == old(self)@,
            decreases n - i,
        {
            let ghost mid = self@;
            let full = resolve_full_tool_name(pkg.tools[i].name.as_str(), pkg.namespace.as_ref());
            let mut resolved = pkg.tools[i].clone();
            resolved.name = full.clone();
            assert(p.tools[i as int] == pkg.tools@[i as int]@);
            assert(resolved@ == entry_of(p.tools[i as int], p).tool);
            match self.register_tool(resolved, Some(pkg.name.as_str())) {
                Err(e) => {
                    proof {
                        assert(with_tools(start, p, i + 1) == Err::<RegistryView, _>(full@));
                        lemma_with_tools_fails(start, p, i + 1, n as int);
                        lemma_rollback(start, p, i as int);
                    }
                    self.remove_tools(&names);
                    return Err(e);
                },
                Ok(_) => {},
            }
            let ghost done = names@;
            names.push(full);
            assert(package_tool_names(p).take(i + 1) =~= package_tool_names(p).take(i as int).push(
                full@,
            ));
            assert(views(names@) =~= views(done).push(full@));
            i = i + 1;
        }
        assert(package_tool_names(p).take(n as int) =~= package_tool_names(p));
        let ghost mid = self@;
        let entry = RegisteredPackage {
            pkg,
            registered_at: now_millis(),
            tool_names: clone_strings(&names),
        };
        let ghost e = entry@;
        self.packages.push(entry);
        proof {
            lemma_with_tools_keeps(start, p, n as int);
            assert(self@.packages =~= mid.packages.push(e));
            assert forall|i: int, j: int|
                0 <= i < j < self@.packages.len() implies (#[trigger] self@.packages[i]).pkg.name
                != (#[trigger] self@.packages[j]).pkg.name by {
                assert(start.packages[i].pkg.name != p.name) by {
                    lemma_package_index_bounds(start.packages, p.name);
                }
            }
        }
        Ok(names)
    }

    /// Unregister a single tool by name.
    pub fn unregister_tool(&mut self, name: &str)
        requires
            registry_wf(old(self)@),
        ensures
            registry_wf(final(self)@),
            final(self)@ == (RegistryView {
                tools: without(old(self)@.tools, seq![name@]),
                ..old(self)@
            }),
    {
        let mut names: Vec<String> = Vec::new();
        names.push(String::from_str(name));
        assert(views(names@) =~= seq![name@]);
        self.remove_tools(&names);
    }

    /// Takes a package out of the registry; its tools are still there.
    pub fn take_package(&mut self, name: &str) -> (r: Result<RegisteredPackage, ToolError>)
        requires
            registry_wf(old(self)@),
        ensures
            registry_wf(final(self)@),
            ({
                let i = package_index(old(self)@.packages, name@);
                match r {
                    Err(e) => i >= old(self)@.packages.len() && e@ == ErrorView::PackageNotFound(
                        name@,
                    ) && final(self)@ == old(self)@,
                    Ok(p) => i < old(self)@.packages.len() && p@ == old(self)@.packages[i]
                        && final(self)@ == (RegistryView {
                        packages: old(self)@.packages.remove(i),
                        ..old(self)@
                    }),
                }
            }),
    {
        let i = self.find_package(name);
        if i >= self.packages.len() {
            return Err(ToolError::package_not_found(name));
        }
        let ghost before = self@.packages;
        let p = self.packages.remove(i);
        proof {
            assert(self@.packages =~= before.remove(i as int));
            assert forall|a: int, b: int|
                0 <= a < b < self@.packages.len() implies (#[trigger] self@.packages[a]).pkg.name
                != (#[trigger] self@.packages[b]).pkg.name by {
                let x = if a < i {
                    a
                } else {
                    a + 1
                };
                let y = if b < i {
                    b
                } else {
                    b + 1
                };
                assert(before[x].pkg.name != before[y].pkg.name);
            }
        }
        Ok(p)
    }

    /// Removes the tools of a package that was taken out.
    pub fn drop_package_tools(&mut self, p: &RegisteredPackage)
        requires
            registry_wf(old(self)@),
        ensures
            registry_wf(final(self)@),
            final(self)@ == (RegistryView {
                tools: without(old(self)@.tools, p@.tool_names),
                ..old(self)@
            }),
    {
        self.remove_tools(&p.tool_names);
    }

    /// Unregister a whole package. Returns the number of the hook that it wants to be called.
    pub fn unregister_package(&mut self, name: &str) -> (r: Result<Option<u64>, ToolError>)
        requires
            registry_wf(old(self)@),
        ensures
            registry_wf(final(self)@),
            ({
                let i = package_index(old(self)@.packages, name@);
                match r {
                    Err(e) => i >= old(self)@.packages.len() && e@ == ErrorView::PackageNotFound(
                        name@,
                    ) && final(self)@ == old(self)@,
                    Ok(hook) => i < old(self)@.packages.len() && hook
                        == old(self)@.packages[i].pkg.on_destroy && final(self)@
                        == without_package(old(self)@, name@),
                }
            }),
    {
        match self.take_package(name) {
            Err(e) => Err(e),
            Ok(p) => {
                self.drop_package_tools(&p);
                Ok(p.pkg.on_destroy)
            },
        }
    }

    /// Whether a tool is registered.
    pub fn has(&self, name: &str) -> (r: bool)
        ensures
            r == has_name(self@.tools, name@),
    {
        self.find_tool(name) < self.tools.len()
    }

    /// Look up a tool.
    pub fn get_tool(&self, name: &str) -> (r: Option<Tool>)
        ensures
            match r {
                Some(t) => lookup(self@.tools, name@) is Some && t@ == lookup(
                    self@.tools,
                    name@,
                )->0.tool,
                None => lookup(self@.tools, name@) is None,
            },
    {
        let i = self.find_tool(name);
        if i < self.tools.len() {
            assert(self@.tools[i as int] == self.tools@[i as int]@);
            Some(self.tools[i].tool.clone())
        } else {
            None
        }
    }

    /// Look up a package.
    pub fn get_package(&self, name: &str) -> (r: Option<ToolPackage>)
        ensures
            ({
                let i = package_index(self@.packages, name@);
                match r {
                    Some(p) => i < self@.packages.len() && p@ == self@.packages[i].pkg,
                    None => i >= self@.packages.len(),
                }
            }),
    {
        let i = self.find_package(name);
        if i < self.packages.len() {
            assert(self@.packages[i as int] == self.packages@[i as int]@);
            Some(self.packages[i].pkg.clone())
        } else {
            None
        }
    }

    /// All tool names.
    pub fn get_tool_names(&self) -> (r: Vec<String>)
        ensures
            views(r@) == self@.tools.map_values(|e: ToolEntry| e.tool.name),
    {
        let mut out: Vec<String> = Vec::new();
        let n = self.tools.len();
        let mut i: usize = 0;
        while i < n
            invariant
                i <= n,
                n == self.tools@.len(),
                out@.len() == i,
                forall|k: int| 0 <= k < i ==> (#[trigger] out@[k])@ == self.tools@[k].tool.name@,
            decreases n - i,
        {
            out.push(self.tools[i].tool.name.clone());
            i = i + 1;
        }
        assert(views(out@) =~= self@.tools.map_values(|e: ToolEntry| e.tool.name));
        out
    }

    /// All tools.
    pub fn all_tools(&self) -> (r: Vec<Tool>)
        ensures
            tools_view(r@) == self@.tools.map_values(|e: ToolEntry| e.tool),
    {
        let mut out: Vec<Tool> = Vec::new();
        let n = self.tools.len();
        let mut i: usize = 0;
        while i < n
            invariant
                i <= n,
                n == self.tools@.len(),
                out@.len() == i,
                forall|k: int| 0 <= k < i ==> (#[trigger] out@[k])@ == self.tools@[k].tool@,
            decreases n - i,
        {
            out.push(self.tools[i].tool.clone());
            i = i + 1;
        }
        assert(tools_view(out@) =~= self@.tools.map_values(|e: ToolEntry| e.tool));
        out
    }

    /// All package names.
    pub fn get_package_names(&self) -> (r: Vec<String>)
        ensures
            views(r@) == self@.packages.map_values(|e: PackageEntry| e.pkg.name),
    {
        let mut out: Vec<String> = Vec::new();
        let n = self.packages.len();
        let mut i: usize = 0;
        while i < n
            invariant
                i <= n,
                n == self.packages@.len(),
                out@.len() == i,
                forall|k: int| 0 <= k < i ==> (#[trigger] out@[k])@ == self.packages@[k].pkg.name@,
            decreases n - i,
        {
            out.push(self.packages[i].pkg.name.clone());
            i = i + 1;
        }
        assert(views(out@) =~= self@.packages.map_values(|e: PackageEntry| e.pkg.name));
        out
    }

    /// All tool definitions (for AI).
    pub fn get_tool_definitions(&self) -> (r: Vec<ToolDefinition>)
        ensures
            r@.map_values(|d: ToolDefinition| d@) == self@.tools.map_values(
                |e: ToolEntry| definition_of(e.tool),
            ),
    {
        let mut out: Vec<ToolDefinition> = Vec::new();
        let n = self.tools.len();
        let mut i: usize = 0;
        while i < n
            invariant
                i <= n,
                n == self.tools@.len(),
                out@.len() == i,
                forall|k: int|
                    0 <= k < i ==> (#[trigger] out@[k])@ == definition_of(self.tools@[k].tool@),
            decreases n - i,
        {
            let t = &self.tools[i].tool;
            out.push(
                ToolDefinition {
                    name: t.name.clone(),
                    description: t.description.clone(),
                    input_schema: t.input_schema.clone(),
                    strict: t.strict,
                },
            );
            i = i + 1;
        }
        assert(out@.map_values(|d: ToolDefinition| d@) =~= self@.tools.map_values(
            |e: ToolEntry| definition_of(e.tool),
        ));
        out
    }

    /// Resolve a tool name into its parsed namespace / original name.
    pub fn resolve_tool_name(&self, name: &str) -> (r: Option<ResolvedToolName>)
        ensures
            match r {
                Some(t) => {
                    &&& lookup(self@.tools, name@) is Some
                    &&& t.tool@ == lookup(self@.tools, name@)->0.tool
                    &&& optional_text(t.namespace) == namespace_of(name@, self@.default_separator)
                    &&& t.original_name@ == short_name(name@, self@.default_separator)
                },
                None => lookup(self@.tools, name@) is None,
            },
    {
        match self.get_tool(name) {
            None => None,
            Some(tool) => {
                let parsed = parse_tool_name(name, self.default_separator);
                Some(
                    ResolvedToolName {
                        tool,
                        namespace: parsed.namespace,
                        original_name: parsed.original_name,
                    },
                )
            },
        }
    }

    /// Snapshot of all packages (for serialization).
    pub fn packages_snapshot(&self) -> (r: Vec<ToolPackage>)
        ensures
            r@.map_values(|p: ToolPackage| p@) == self@.packages.map_values(
                |e: PackageEntry| e.pkg,
            ),
    {
        let mut out: Vec<ToolPackage> = Vec::new();
        let n = self.packages.len();
        let mut i: usize = 0;
        while i < n
            invariant
                i <= n,
                n == self.packages@.len(),
                out@.len() == i,
                forall|k: int| 0 <= k < i ==> (#[trigger] out@[k])@ == self.packages@[k].pkg@,
            decreases n - i,
        {
            out.push(self.packages[i].pkg.clone());
            i = i + 1;
        }
        assert(out@.map_values(|p: ToolPackage| p@) =~= self@.packages.map_values(
            |e: PackageEntry| e.pkg,
        ));
        out
    }
}

impl Default for ToolRegistryImpl {
    fn default() -> (r: Self)
        ensures
            r@ == (RegistryView {
                tools: Seq::empty(),
                packages: Seq::empty(),
                conflict_strategy: ConflictStrategy::Error,
                default_separator: DEFAULT_NAMESPACE_SEPARATOR,
            }),
    {
        ToolRegistryImpl::new()
    }
}

// ---------------------------------------------------------------------------
// Lemmas and laws
// ---------------------------------------------------------------------------

proof fn lemma_put_distinct(v: Seq<ToolEntry>, e: ToolEntry)
    requires
        distinct_names(v),
    ensures
        distinct_names(put(v, e)),
{
    lemma_name_index_bounds(v, e.tool.name);
    let at = name_index(v, e.tool.name);
    let w = put(v, e);
    assert forall|i: int, j: int| 0 <= i < j < w.len() implies (#[trigger] w[i]).tool.name != (
    #[trigger] w[j]).tool.name by {
        if at < v.len() {
            if i == at {
                assert(v[at].tool.name != v[j].tool.name);
            } else if j == at {
                assert(v[i].tool.name != v[at].tool.name);
            }
        }
    }
}

proof fn lemma_without_distinct(v: Seq<ToolEntry>, p: spec_fn(ToolEntry) -> bool)
    requires
        distinct_names(v),
    ensures
        distinct_names(v.filter(p)),
        forall|i: int|
            0 <= i < v.filter(p).len() ==> exists|j: int|
                0 <= j < v.len() && v[j] == (#[trigger] v.filter(p)[i]),
    decreases v.len(),
{
    reveal(Seq::filter);
    if v.len() > 0 {
        let rest = v.drop_last();
        assert forall|i: int, j: int| 0 <= i < j < rest.len() implies (#[trigger] rest[i]).tool.name
            != (#[trigger] rest[j]).tool.name by {
            assert(v[i].tool.name != v[j].tool.name);
        }
        lemma_without_distinct(rest, p);
        let f = rest.filter(p);
        let w = v.filter(p);
        assert forall|i: int| 0 <= i < w.len() implies exists|j: int|
            0 <= j < v.len() && v[j] == (#[trigger] w[i]) by {
            if i < f.len() {
                let j = choose|j: int| 0 <= j < rest.len() && rest[j] == f[i];
                assert(v[j] == w[i]);
            } else {
                assert(v[v.len() - 1] == w[i]);
            }
        }
        assert forall|i: int, j: int| 0 <= i < j < w.len() implies (#[trigger] w[i]).tool.name != (
        #[trigger] w[j]).tool.name by {
            if j < f.len() {
                assert(w[i] == f[i] && w[j] == f[j]);
            } else {
                let a = choose|a: int| 0 <= a < rest.len() && rest[a] == f[i];
                assert(w[i] == v[a]);
                assert(w[j] == v[v.len() - 1]);
            }
        }
    }
}

proof fn lemma_package_index_bounds(v: Seq<PackageEntry>, name: Seq<char>)
    ensures
        0 <= package_index(v, name) <= v.len(),
        forall|k: int| 0 <= k < package_index(v, name) ==> (#[trigger] v[k]).pkg.name != name,
        package_index(v, name) < v.len() ==> v[package_index(v, name)].pkg.name == name,
    decreases v.len(),
{
    if v.len() > 0 && v[0].pkg.name != name {
        lemma_package_index_bounds(v.skip(1), name);
        assert forall|k: int| 0 <= k < package_index(v, name) implies (#[trigger] v[k]).pkg.name
            != name by {
            if k > 0 {
                assert(v.skip(1)[k - 1].pkg.name != name);
            }
        }
    }
}

proof fn lemma_with_tools_keeps(r: RegistryView, p: PackageView, n: int)
    ensures
        with_tools(r, p, n) matches Ok(mid) ==> mid.packages == r.packages
            && mid.conflict_strategy == r.conflict_strategy && mid.default_separator
            == r.default_separator,
    decreases n,
{
    if n > 0 {
        lemma_with_tools_keeps(r, p, n - 1);
    }
}

proof fn lemma_with_tools_fails(r: RegistryView, p: PackageView, n: int, m: int)
    requires
        n <= m,
        with_tools(r, p, n) is Err,
    ensures
        with_tools(r, p, m) == with_tools(r, p, n),
    decreases m - n,
{
    if n < m {
        if m > 0 {
            lemma_with_tools_fails(r, p, n, m - 1);
        }
    }
}

proof fn lemma_filter_all(v: Seq<ToolEntry>, p: spec_fn(ToolEntry) -> bool)
    requires
        forall|i: int| 0 <= i < v.len() ==> p(#[trigger] v[i]),
    ensures
        v.filter(p) == v,
    decreases v.len(),
{
    reveal(Seq::filter);
    if v.len() > 0 {
        let rest = v.drop_last();
        assert forall|i: int| 0 <= i < rest.len() implies p(#[trigger] rest[i]) by {
            assert(p(v[i]));
        }
        lemma_filter_all(rest, p);
        assert(p(v[v.len() - 1]));
        assert(rest.push(v.last()) =~= v);
    } else {
        assert(v.filter(p) =~= v);
    }
}

/// Where names that are taken are an error, the first tools of a package only add to the end
/// of the list, under names that were free.
proof fn lemma_with_tools_appends(r: RegistryView, p: PackageView, n: int)
    requires
        0 <= n <= p.tools.len(),
        r.conflict_strategy == ConflictStrategy::Error,
        with_tools(r, p, n) is Ok,
    ensures
        ({
            let mid = with_tools(r, p, n)->Ok_0;
            &&& mid.tools.len() == r.tools.len() + n
            &&& mid.tools.take(r.tools.len() as int) == r.tools
            &&& forall|i: int|
                0 <= i < n ==> (#[trigger] mid.tools[r.tools.len() + i]).tool.name == full_name(
                    p.tools[i].name,
                    p.namespace,
                )
            &&& forall|i: int|
                0 <= i < n ==> !has_name(
                    r.tools,
                    full_name((#[trigger] p.tools[i]).name, p.namespace),
                )
        }),
    decreases n,
{
    if n == 0 {
        assert(r.tools.take(r.tools.len() as int) =~= r.tools);
    } else {
        lemma_with_tools_appends(r, p, n - 1);
        lemma_with_tools_keeps(r, p, n - 1);
        let prev = with_tools(r, p, n - 1)->Ok_0;
        let mid = with_tools(r, p, n)->Ok_0;
        let e = entry_of(p.tools[n - 1], p);
        assert(!has_name(prev.tools, e.tool.name));
        lemma_name_index_bounds(prev.tools, e.tool.name);
        if name_index(prev.tools, e.tool.name) < prev.tools.len() {
            assert(prev.tools[name_index(prev.tools, e.tool.name)].tool.name == e.tool.name);
        }
        assert(mid.tools == prev.tools.push(e));
        assert(mid.tools.take(r.tools.len() as int) =~= prev.tools.take(r.tools.len() as int));
        if has_name(r.tools, e.tool.name) {
            let i = choose|i: int| 0 <= i < r.tools.len() && (#[trigger] r.tools[i]).tool.name
                == e.tool.name;
            assert(prev.tools.take(r.tools.len() as int)[i] == prev.tools[i]);
            assert(prev.tools[i].tool.name == e.tool.name);
        }
    }
}

proof fn lemma_rollback(r: RegistryView, p: PackageView, n: int)
    requires
        0 <= n < p.tools.len(),
        with_tools(r, p, n) is Ok,
        with_tools(r, p, n + 1) is Err,
    ensures
        with_tools(r, p, n)->Ok_0.packages == r.packages,
        with_tools(r, p, n)->Ok_0.conflict_strategy == r.conflict_strategy,
        with_tools(r, p, n)->Ok_0.default_separator == r.default_separator,
        without(with_tools(r, p, n)->Ok_0.tools, package_tool_names(p).take(n)) == r.tools,
{
    lemma_with_tools_keeps(r, p, n);
    lemma_with_tools_appends(r, p, n);
    let mid = with_tools(r, p, n)->Ok_0;
    let names = package_tool_names(p).take(n);
    let f = |e: ToolEntry| !names.contains(e.tool.name);
    let m = r.tools.len() as int;
    assert forall|i: int| 0 <= i < m implies f(#[trigger] r.tools[i]) by {
        if names.contains(r.tools[i].tool.name) {
            let k = choose|k: int| 0 <= k < names.len() && names[k] == r.tools[i].tool.name;
            assert(names[k] == full_name(p.tools[k].name, p.namespace));
            assert(has_name(r.tools, full_name(p.tools[k].name, p.namespace)));
        }
    }
    lemma_filter_all(r.tools, f);
    assert forall|i: int| m <= i < mid.tools.len() implies names.contains(
        (#[trigger] mid.tools[i]).tool.name,
    ) by {
        let k = i - m;
        assert(mid.tools[m + k].tool.name == full_name(p.tools[k].name, p.namespace));
        assert(names[k] == mid.tools[i].tool.name);
    }
    lemma_drop_tail(mid.tools, m, f, names);
}

proof fn lemma_drop_tail(
    v: Seq<ToolEntry>,
    m: int,
    f: spec_fn(ToolEntry) -> bool,
    names: Seq<Seq<char>>,
)
    requires
        0 <= m <= v.len(),
        f == (|e: ToolEntry| !names.contains(e.tool.name)),
        v.take(m).filter(f) == v.take(m),
        forall|i: int| m <= i < v.len() ==> names.contains((#[trigger] v[i]).tool.name),
    ensures
        v.filter(f) == v.take(m),
    decreases v.len(),
{
    reveal(Seq::filter);
    if v.len() == m {
        assert(v.take(m) =~= v);
    } else {
        let rest = v.drop_last();
        assert(rest.take(m) =~= v.take(m));
        assert forall|i: int| m <= i < rest.len() implies names.contains(
            (#[trigger] rest[i]).tool.name,
        ) by {
            assert(names.contains(v[i].tool.name));
        }
        lemma_drop_tail(rest, m, f, names);
        assert(names.contains(v[v.len() - 1].tool.name));
    }
}

/// A tool that was put into the list is found under its name, and every other name leads
/// where it led before.
pub proof fn law_lookup_after_put(v: Seq<ToolEntry>, e: ToolEntry, name: Seq<char>)
    ensures
        lookup(put(v, e), name) == if name == e.tool.name {
            Some(e)
        } else {
            lookup(v, name)
        },
{
    let at = name_index(v, e.tool.name);
    let w = put(v, e);
    lemma_name_index_bounds(v, e.tool.name);
    lemma_name_index_bounds(v, name);
    if name == e.tool.name {
        lemma_name_index(w, at, name);
    } else {
        let i = name_index(v, name);
        assert forall|k: int| 0 <= k < i implies (#[trigger] w[k]).tool.name != name by {
            if k != at {
                assert(w[k] == v[k]);
            }
        }
        if i < v.len() {
            assert(i != at);
            lemma_name_index(w, i, name);
        } else {
            lemma_name_index(w, w.len() as int, name);
        }
    }
}

/// A tool that was unregistered is not found, and every other name leads where it led before.
pub proof fn law_lookup_after_unregister(v: Seq<ToolEntry>, gone: Seq<char>, name: Seq<char>)
    ensures
        lookup(without(v, seq![gone]), name) == if name == gone {
            None
        } else {
            lookup(v, name)
        },
{
    lemma_lookup_without(v, seq![gone], name);
    if name == gone {
        assert(seq![gone][0] == name);
    } else {
        assert(!seq![gone].contains(name));
    }
}

proof fn lemma_lookup_push(v: Seq<ToolEntry>, e: ToolEntry, name: Seq<char>)
    ensures
        lookup(v.push(e), name) == if lookup(v, name) is Some {
            lookup(v, name)
        } else if e.tool.name == name {
            Some(e)
        } else {
            None
        },
{
    let w = v.push(e);
    let i = name_index(v, name);
    lemma_name_index_bounds(v, name);
    assert forall|k: int| 0 <= k < i implies (#[trigger] w[k]).tool.name != name by {
        assert(w[k] == v[k]);
    }
    if i < v.len() {
        lemma_name_index(w, i, name);
    } else if e.tool.name == name {
        lemma_name_index(w, i, name);
    } else {
        lemma_name_index(w, w.len() as int, name);
    }
}

proof fn lemma_lookup_without(v: Seq<ToolEntry>, names: Seq<Seq<char>>, name: Seq<char>)
    ensures
        lookup(without(v, names), name) == if names.contains(name) {
            None
        } else {
            lookup(v, name)
        },
    decreases v.len(),
{
    let f = |e: ToolEntry| !names.contains(e.tool.name);
    reveal(Seq::filter);
    if v.len() > 0 {
        let rest = v.drop_last();
        lemma_lookup_without(rest, names, name);
        assert(rest.push(v.last()) =~= v);
        lemma_lookup_push(rest, v.last(), name);
        lemma_lookup_push(rest.filter(f), v.last(), name);
    }
}

/// Where names that are taken are an error, unregistering a package that was just registered
/// leaves the registry as it was before.
pub proof fn law_unregister_undoes_register(r: RegistryView, p: PackageView)
    requires
        registry_wf(r),
        r.conflict_strategy == ConflictStrategy::Error,
        with_package(r, p) is Ok,
    ensures
        without_package(with_package(r, p)->Ok_0, p.name) == r,
{
    let n = p.tools.len() as int;
    let mid = with_tools(r, p, n)->Ok_0;
    let s = with_package(r, p)->Ok_0;
    lemma_with_tools_keeps(r, p, n);
    lemma_with_tools_appends(r, p, n);
    lemma_package_index_bounds(r.packages, p.name);
    let at = r.packages.len() as int;
    assert forall|k: int| 0 <= k < at implies (#[trigger] s.packages[k]).pkg.name != p.name by {
        assert(s.packages[k] == r.packages[k]);
    }
    lemma_package_index(s.packages, at, p.name);
    assert(s.packages.remove(at) =~= r.packages);
    let names = package_tool_names(p);
    let f = |e: ToolEntry| !names.contains(e.tool.name);
    let m = r.tools.len() as int;
    assert forall|i: int| 0 <= i < m implies f(#[trigger] r.tools[i]) by {
        if names.contains(r.tools[i].tool.name) {
            let k = choose|k: int| 0 <= k < names.len() && names[k] == r.tools[i].tool.name;
            assert(names[k] == full_name(p.tools[k].name, p.namespace));
            assert(has_name(r.tools, full_name(p.tools[k].name, p.namespace)));
        }
    }
    lemma_filter_all(r.tools, f);
    assert forall|i: int| m <= i < mid.tools.len() implies names.contains(
        (#[trigger] mid.tools[i]).tool.name,
    ) by {
        let k = i - m;
        assert(mid.tools[m + k].tool.name == full_name(p.tools[k].name, p.namespace));
        assert(names[k] == mid.tools[i].tool.name);
    }
    lemma_drop_tail(mid.tools, m, f, names);
}

/// After a package was registered, each of its tools is there under its full name, whatever
/// the conflict strategy.
pub proof fn law_package_tools_are_there(r: RegistryView, p: PackageView, i: int)
    requires
        with_package(r, p) is Ok,
        0 <= i < p.tools.len(),
    ensures
        has_name(with_package(r, p)->Ok_0.tools, full_name(p.tools[i].name, p.namespace)),
{
    lemma_tools_are_there(r, p, p.tools.len() as int, i);
}

/// Around the calls of a tool that came with a package run the hooks of that package.
pub proof fn law_package_hooks_run(r: RegistryView, p: PackageView, name: Seq<char>)
    requires
        with_package(r, p) is Ok,
        lookup(with_package(r, p)->Ok_0.tools, name) matches Some(e) && e.package == Some(p.name),
    ensures
        hooks_around(with_package(r, p)->Ok_0, name) == (PackageHooks {
            before: p.before_execute,
            after: p.after_execute,
        }),
{
    let after = with_package(r, p)->Ok_0;
    lemma_with_tools_keeps(r, p, p.tools.len() as int);
    lemma_package_index_bounds(r.packages, p.name);
    let n = r.packages.len() as int;
    assert forall|k: int| 0 <= k < n implies (#[trigger] after.packages[k]).pkg.name != p.name by {
        assert(r.packages[k].pkg.name != p.name);
    }
    lemma_package_index(after.packages, n, p.name);
}

/// A registration is warned of exactly where its tool is skipped and the strategy is to warn
/// of that, or where it is taken in and deprecated.
pub proof fn law_warnings_tell(r: RegistryView, e: ToolEntry)
    requires
        !register_fails(r, e.tool.name),
    ensures
        (tool_warnings(r, e.tool).len() > 0) == (if has_name(r.tools, e.tool.name)
            && r.conflict_strategy != ConflictStrategy::Override {
            r.conflict_strategy == ConflictStrategy::Warn
        } else {
            e.tool.deprecated
        }),
        tool_warnings(r, e.tool).len() <= 1,
{
}

proof fn lemma_has_name_after(r: RegistryView, e: ToolEntry, name: Seq<char>)
    requires
        has_name(r.tools, name) || name == e.tool.name,
    ensures
        has_name(tools_after(r, e), name),
{
    if has_name(r.tools, e.tool.name) && r.conflict_strategy != ConflictStrategy::Override {
    } else {
        let at = name_index(r.tools, e.tool.name);
        lemma_name_index_bounds(r.tools, e.tool.name);
        let w = put(r.tools, e);
        if name == e.tool.name {
            if at < r.tools.len() {
                assert(w[at].tool.name == name);
            } else {
                assert(w[r.tools.len() as int].tool.name == name);
            }
        } else {
            let k = choose|k: int| 0 <= k < r.tools.len() && (#[trigger] r.tools[k]).tool.name
                == name;
            assert(w[k].tool.name == name);
        }
    }
}

proof fn lemma_names_after(r: RegistryView, p: PackageView, n: int, name: Seq<char>)
    requires
        0 <= n <= p.tools.len(),
        with_tools(r, p, n) is Ok,
    ensures
        has_name(with_tools(r, p, n)->Ok_0.tools, name) == (has_name(r.tools, name)
            || package_tool_names(p).take(n).contains(name)),
    decreases n,
{
    let names = package_tool_names(p);
    if n > 0 {
        let prev = with_tools(r, p, n - 1)->Ok_0;
        let e = entry_of(p.tools[n - 1], p);
        let after = with_tools(r, p, n)->Ok_0.tools;
        lemma_names_after(r, p, n - 1, name);
        let less = names.take(n - 1);
        let more = names.take(n);
        assert(more =~= less.push(e.tool.name));
        if less.contains(name) {
            let k = choose|k: int| 0 <= k < less.len() && less[k] == name;
            assert(more[k] == name);
        }
        if name == e.tool.name {
            assert(more[n - 1] == name);
        }
        if has_name(prev.tools, name) || name == e.tool.name {
            lemma_has_name_after(prev, e, name);
        }
        if has_name(after, name) && name != e.tool.name {
            lemma_name_index_bounds(prev.tools, e.tool.name);
            let k = choose|k: int| 0 <= k < after.len() && (#[trigger] after[k]).tool.name == name;
            assert(prev.tools[k].tool.name == name);
        }
        if more.contains(name) && name != e.tool.name {
            let k = choose|k: int| 0 <= k < more.len() && more[k] == name;
            assert(less[k] == name);
        }
    }
}

proof fn lemma_tools_are_there(r: RegistryView, p: PackageView, n: int, i: int)
    requires
        with_tools(r, p, n) is Ok,
        0 <= i < n,
    ensures
        has_name(with_tools(r, p, n)->Ok_0.tools, full_name(p.tools[i].name, p.namespace)),
    decreases n,
{
    let prev = with_tools(r, p, n - 1)->Ok_0;
    let e = entry_of(p.tools[n - 1], p);
    if i < n - 1 {
        lemma_tools_are_there(r, p, n - 1, i);
    }
    lemma_has_name_after(prev, e, full_name(p.tools[i].name, p.namespace));
}

/// A name leads to the first tool that has it, and to none exactly where no tool has it.
pub proof fn law_lookup(v: Seq<ToolEntry>, name: Seq<char>)
    ensures
        lookup(v, name) is None <==> forall|i: int|
            0 <= i < v.len() ==> (#[trigger] v[i]).tool.name != name,
        lookup(v, name) matches Some(e) ==> e.tool.name == name && exists|i: int|
            0 <= i < v.len() && #[trigger] v[i] == e && forall|k: int|
                0 <= k < i ==> (#[trigger] v[k]).tool.name != name,
{
    lemma_name_index_bounds(v, name);
    if lookup(v, name) is Some {
        assert(v[name_index(v, name)] == lookup(v, name)->0);
    }
}

/// Registering a tool under a free name makes the name lead to it. Under a taken name it fails
/// where that is an error, changes nothing where the first registration is kept, and replaces
/// the tool where it is overridden. Every other name leads where it led before.
pub proof fn law_register(r: RegistryView, e: ToolEntry, name: Seq<char>)
    ensures
        register_fails(r, e.tool.name) <==> lookup(r.tools, e.tool.name) is Some
            && r.conflict_strategy == ConflictStrategy::Error,
        lookup(r.tools, e.tool.name) is None ==> lookup(tools_after(r, e), e.tool.name) == Some(e)
            && tools_after(r, e).len() == r.tools.len() + 1,
        lookup(r.tools, e.tool.name) is Some && (r.conflict_strategy == ConflictStrategy::Warn
            || r.conflict_strategy == ConflictStrategy::Skip) ==> tools_after(r, e) == r.tools,
        lookup(r.tools, e.tool.name) is Some && r.conflict_strategy == ConflictStrategy::Override
            ==> lookup(tools_after(r, e), e.tool.name) == Some(e) && tools_after(r, e).len()
            == r.tools.len(),
        name != e.tool.name ==> lookup(tools_after(r, e), name) == lookup(r.tools, name),
{
    law_lookup_after_put(r.tools, e, e.tool.name);
    law_lookup_after_put(r.tools, e, name);
    lemma_name_index_bounds(r.tools, e.tool.name);
    if has_name(r.tools, e.tool.name) {
        assert(lookup(r.tools, e.tool.name) is Some);
    } else if lookup(r.tools, e.tool.name) is Some {
        assert(r.tools[name_index(r.tools, e.tool.name)].tool.name == e.tool.name);
    }
}

/// Registering a package changes nothing but the names of its tools, and adds the package, with
/// the full names of its tools, behind the others.
pub proof fn law_package_is_added(r: RegistryView, p: PackageView, name: Seq<char>)
    requires
        with_package(r, p) is Ok,
    ensures
        ({
            let after = with_package(r, p)->Ok_0;
            &&& after.packages.len() == r.packages.len() + 1
            &&& after.packages.drop_last() == r.packages
            &&& after.packages.last().pkg == p
            &&& after.packages.last().tool_names.len() == p.tools.len()
            &&& forall|i: int|
                0 <= i < p.tools.len() ==> #[trigger] after.packages.last().tool_names[i]
                    == full_name(p.tools[i].name, p.namespace)
            &&& after.conflict_strategy == r.conflict_strategy
            &&& after.default_separator == r.default_separator
            &&& (forall|i: int|
                0 <= i < p.tools.len() ==> full_name(
                    (#[trigger] p.tools[i]).name,
                    p.namespace,
                ) != name) ==> lookup(after.tools, name) == lookup(r.tools, name)
        }),
{
    let n = p.tools.len() as int;
    lemma_with_tools_keeps(r, p, n);
    let after = with_package(r, p)->Ok_0;
    assert(after.packages.drop_last() =~= r.packages);
    if forall|i: int|
        0 <= i < p.tools.len() ==> full_name((#[trigger] p.tools[i]).name, p.namespace) != name {
        lemma_other_names_stay(r, p, n, name);
    }
}

proof fn lemma_other_names_stay(r: RegistryView, p: PackageView, n: int, name: Seq<char>)
    requires
        0 <= n <= p.tools.len(),
        with_tools(r, p, n) is Ok,
        forall|i: int|
            0 <= i < p.tools.len() ==> full_name((#[trigger] p.tools[i]).name, p.namespace) != name,
    ensures
        lookup(with_tools(r, p, n)->Ok_0.tools, name) == lookup(r.tools, name),
    decreases n,
{
    if n > 0 {
        lemma_other_names_stay(r, p, n - 1, name);
        assert(full_name(p.tools[n - 1].name, p.namespace) != name);
        law_register(with_tools(r, p, n - 1)->Ok_0, entry_of(p.tools[n - 1], p), name);
    }
}

/// A package is refused where its name is taken. Where taken names are an error, it is refused
/// also where the full name of one of its tools is taken.
pub proof fn law_package_is_refused(r: RegistryView, p: PackageView, i: int)
    ensures
        (exists|k: int| 0 <= k < r.packages.len() && (#[trigger] r.packages[k]).pkg.name == p.name)
            ==> with_package(r, p) == Err::<RegistryView, ErrorView>(
            ErrorView::PackageAlreadyExists(p.name),
        ),
        0 <= i < p.tools.len() && r.conflict_strategy == ConflictStrategy::Error && lookup(
            r.tools,
            full_name(p.tools[i].name, p.namespace),
        ) is Some ==> with_package(r, p) is Err,
        (forall|k: int| 0 <= k < r.packages.len() ==> (#[trigger] r.packages[k]).pkg.name != p.name)
            && r.conflict_strategy != ConflictStrategy::Error ==> with_package(r, p) is Ok,
{
    lemma_package_index_bounds(r.packages, p.name);
    if 0 <= i < p.tools.len() && r.conflict_strategy == ConflictStrategy::Error && lookup(
        r.tools,
        full_name(p.tools[i].name, p.namespace),
    ) is Some {
        lemma_taken_name_stops(r, p, p.tools.len() as int, i);
    }
    if r.conflict_strategy != ConflictStrategy::Error {
        lemma_nothing_stops(r, p, p.tools.len() as int);
    }
}

proof fn lemma_nothing_stops(r: RegistryView, p: PackageView, n: int)
    requires
        r.conflict_strategy != ConflictStrategy::Error,
    ensures
        with_tools(r, p, n) is Ok,
        with_tools(r, p, n)->Ok_0.conflict_strategy == r.conflict_strategy,
    decreases n,
{
    if n > 0 {
        lemma_nothing_stops(r, p, n - 1);
    }
}

proof fn lemma_taken_name_stops(r: RegistryView, p: PackageView, n: int, i: int)
    requires
        0 <= i < n <= p.tools.len(),
        r.conflict_strategy == ConflictStrategy::Error,
        lookup(r.tools, full_name(p.tools[i].name, p.namespace)) is Some,
    ensures
        with_tools(r, p, n) is Err,
    decreases n,
{
    if i < n - 1 {
        lemma_taken_name_stops(r, p, n - 1, i);
    } else if with_tools(r, p, n - 1) is Ok {
        let name = full_name(p.tools[i].name, p.namespace);
        let mid = with_tools(r, p, n - 1)->Ok_0;
        lemma_with_tools_keeps(r, p, n - 1);
        lemma_names_after(r, p, n - 1, name);
        lemma_name_index_bounds(r.tools, name);
        assert(r.tools[name_index(r.tools, name)].tool.name == name);
        assert(has_name(r.tools, name));
        assert(register_fails(mid, entry_of(p.tools[n - 1], p).tool.name));
    }
}

/// A tool of a package that was registered, where it is the only one with its full name and
/// that name was free, is the package's tool under its full name, and belongs to the package.
pub proof fn law_package_tool_is_found(r: RegistryView, p: PackageView, i: int)
    requires
        with_package(r, p) is Ok,
        0 <= i < p.tools.len(),
        lookup(r.tools, full_name(p.tools[i].name, p.namespace)) is None,
        forall|k: int|
            0 <= k < p.tools.len() && k != i ==> full_name(
                (#[trigger] p.tools[k]).name,
                p.namespace,
            ) != full_name(p.tools[i].name, p.namespace),
    ensures
        lookup(with_package(r, p)->Ok_0.tools, full_name(p.tools[i].name, p.namespace)) == Some(
            ToolEntry {
                tool: ToolView { name: full_name(p.tools[i].name, p.namespace), ..p.tools[i] },
                package: Some(p.name),
            },
        ),
{
    lemma_package_tool(r, p, p.tools.len() as int, i);
}

proof fn lemma_package_tool(r: RegistryView, p: PackageView, n: int, i: int)
    requires
        0 <= i < p.tools.len(),
        0 <= n <= p.tools.len(),
        with_tools(r, p, n) is Ok,
        lookup(r.tools, full_name(p.tools[i].name, p.namespace)) is None,
        forall|k: int|
            0 <= k < p.tools.len() && k != i ==> full_name(
                (#[trigger] p.tools[k]).name,
                p.namespace,
            ) != full_name(p.tools[i].name, p.namespace),
    ensures
        lookup(with_tools(r, p, n)->Ok_0.tools, full_name(p.tools[i].name, p.namespace)) == if i
            < n {
            Some(entry_of(p.tools[i], p))
        } else {
            None
        },
    decreases n,
{
    if n > 0 {
        lemma_package_tool(r, p, n - 1, i);
        let mid = with_tools(r, p, n - 1)->Ok_0;
        law_register(
            mid,
            entry_of(p.tools[n - 1], p),
            full_name(p.tools[i].name, p.namespace),
        );
        if n - 1 != i {
            assert(full_name(p.tools[n - 1].name, p.namespace) != full_name(
                p.tools[i].name,
                p.namespace,
            ));
        }
    }
}

/// Unregistering a package takes away its tools and the package, and nothing else.
pub proof fn law_package_is_removed(r: RegistryView, at: int, name: Seq<char>)
    requires
        distinct_packages(r.packages),
        0 <= at < r.packages.len(),
    ensures
        ({
            let after = without_package(r, r.packages[at].pkg.name);
            &&& after.packages == r.packages.remove(at)
            &&& lookup(after.tools, name) == if r.packages[at].tool_names.contains(name) {
                None
            } else {
                lookup(r.tools, name)
            }
            &&& after.conflict_strategy == r.conflict_strategy
            &&& after.default_separator == r.default_separator
        }),
{
    lemma_package_index(r.packages, at, r.packages[at].pkg.name);
    lemma_lookup_without(r.tools, r.packages[at].tool_names, name);
}

/// No hooks run around the calls of a tool that belongs to no package, nor of one that is not
/// there.
pub proof fn law_no_package_no_hooks(r: RegistryView, name: Seq<char>)
    requires
        lookup(r.tools, name) matches Some(e) ==> e.package is None,
    ensures
        hooks_around(r, name).before is None,
        hooks_around(r, name).after is None,
{
}

/// Around the calls of a tool run the hooks of the package that it belongs to.
pub proof fn law_hooks_of_the_package(r: RegistryView, name: Seq<char>, at: int)
    requires
        distinct_packages(r.packages),
        0 <= at < r.packages.len(),
        lookup(r.tools, name) matches Some(e) && e.package == Some(r.packages[at].pkg.name),
    ensures
        hooks_around(r, name).before == r.packages[at].pkg.before_execute,
        hooks_around(r, name).after == r.packages[at].pkg.after_execute,
{
    lemma_package_index(r.packages, at, r.packages[at].pkg.name);
}

/// Tools that were removed are not found, and every other name leads where it led before.
pub proof fn law_lookup_after_removal(v: Seq<ToolEntry>, names: Seq<Seq<char>>, name: Seq<char>)
    ensures
        lookup(without(v, names), name) == if names.contains(name) {
            None
        } else {
            lookup(v, name)
        },
{
    lemma_lookup_without(v, names, name);
}

} // verus!
