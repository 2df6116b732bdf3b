//! Operations on serialized configs: merge, scope and diff.
use vstd::prelude::*;

use crate::json::add_members;
use crate::json::build_object;
use crate::json::field;
use crate::json::law_same_json_reflexive;
use crate::json::lemma_object_view;
use crate::json::members_of;
use crate::json::members_view;
use crate::json::object_of;
use crate::json::optional_view;
use crate::json::or_null;
use crate::json::same_json;
use crate::json::sorted_keys;
use crate::json::Json;
use crate::json::JsonView;
use crate::manager::config_validator::has_package;
use crate::manager::config_validator::has_tool;
use crate::manager::config_validator::standalone;
use crate::manager::factory::ToolManagerFactory;
use crate::serialized::changes_view;
use crate::serialized::clone_choice;
use crate::serialized::clone_configs;
use crate::serialized::configs_view;
use crate::serialized::empty_config;
use crate::serialized::modified_view;
use crate::serialized::packages_view;
use crate::serialized::settings_json;
use crate::serialized::tool_json;
use crate::serialized::ChangeView;
use crate::serialized::ConfigDiff;
use crate::serialized::ConfigFieldChange;
use crate::serialized::ConfigView;
use crate::serialized::ModifiedTool;
use crate::serialized::ModifiedView;
use crate::serialized::PackageConfigView;
use crate::serialized::SerializedManagerConfig;
use crate::serialized::SettingsView;
use crate::serialized::ToolConfig;
use crate::serialized::ToolConfigView;
use crate::serialized::ToolManagerSerializedConfig;
use crate::serialized::ToolPackageConfig;
use crate::text::before;
use crate::text::lemma_before_total;
use crate::text::lemma_before_transitive;
use crate::text::listed;
use crate::text::same;
use crate::text::str_before;
use crate::text::views;
use crate::types::clone_text;
use crate::types::clone_texts;
use crate::types::ConflictStrategy;
use crate::types::MergeOptions;
use crate::types::PackagePriority;

verus! {

// ---------------------------------------------------------------------------
// Tools by name
// ---------------------------------------------------------------------------

/// The position of the first tool of this name; the length of the list where there is none.
pub open spec fn tool_position(v: Seq<ToolConfigView>, name: Seq<char>) -> int
    decreases v.len(),
{
    if v.len() == 0 {
        0
    } else if v[0].name == name {
        0
    } else {
        1 + tool_position(v.skip(1), name)
    }
}

/// Tools with one of each name, in the order in which the names came: the first of each, or
/// the last where later ones override.
pub open spec fn one_of_each(v: Seq<ToolConfigView>, overrides: bool) -> Seq<ToolConfigView>
    decreases v.len(),
{
    if v.len() == 0 {
        v
    } else {
        let rest = one_of_each(v.drop_last(), overrides);
        let at = tool_position(rest, v.last().name);
        if at >= rest.len() {
            rest.push(v.last())
        } else if overrides {
            rest.update(at, v.last())
        } else {
            rest
        }
    }
}

/// What the first position of a name says.
pub proof fn lemma_tool_position(v: Seq<ToolConfigView>, name: Seq<char>)
    ensures
        0 <= tool_position(v, name) <= v.len(),
        forall|k: int| 0 <= k < tool_position(v, name) ==> (#[trigger] v[k]).name != name,
        tool_position(v, name) < v.len() ==> v[tool_position(v, name)].name == name,
        (tool_position(v, name) < v.len()) == has_tool(v, name),
    decreases v.len(),
{
    if v.len() > 0 && v[0].name != name {
        lemma_tool_position(v.skip(1), name);
        assert forall|k: int| 0 <= k < tool_position(v, name) implies (#[trigger] v[k]).name
            != name by {
            if k > 0 {
                assert(v.skip(1)[k - 1].name != name);
            }
        }
        if has_tool(v, name) {
            let k = choose|k: int| 0 <= k < v.len() && (#[trigger] v[k]).name == name;
            assert(v.skip(1)[k - 1].name == name);
        }
    } else if v.len() > 0 {
        assert(v[0].name == name);
    }
}

proof fn lemma_position_is(v: Seq<ToolConfigView>, i: int, name: Seq<char>)
    requires
        0 <= i <= v.len(),
        forall|k: int| 0 <= k < i ==> (#[trigger] v[k]).name != name,
        i < v.len() ==> v[i].name == name,
    ensures
        tool_position(v, name) == i,
{
    lemma_tool_position(v, name);
    let at = tool_position(v, name);
    if at < i {
        assert(v[at].name != name);
    }
    if i < at {
        assert(v[i].name != name);
    }
}

fn find_config(v: &Vec<ToolConfig>, name: &str) -> (r: usize)
    ensures
        r as int == tool_position(configs_view(v@), name@),
        r <= v@.len(),
{
    let ghost all = configs_view(v@);
    let n = v.len();
    let mut i: usize = 0;
    while i < n
        invariant
            i <= n,
            n == v@.len(),
            all == configs_view(v@),
            forall|k: int| 0 <= k < i ==> (#[trigger] all[k]).name != name@,
        decreases n - i,
    {
        if same(v[i].name.as_str(), name) {
            assert(all[i as int].name == name@);
            proof {
                lemma_position_is(all, i as int, name@);
            }
            return i;
        }
        i = i + 1;
    }
    proof {
        lemma_position_is(all, n as int, name@);
    }
    n
}

/// Keeps one tool of each name: the first, or the last where later ones override.
pub fn deduplicate_tools(tools: Vec<ToolConfig>, strategy: ConflictStrategy) -> (r: Vec<ToolConfig>)
    ensures
        configs_view(r@) == one_of_each(
            configs_view(tools@),
            strategy == ConflictStrategy::Override,
        ),
{
    let overrides = match strategy {
        ConflictStrategy::Override => true,
        _ => false,
    };
    let ghost source = tools@;
    let ghost all = configs_view(source);
    let mut out: Vec<ToolConfig> = Vec::new();
    assert(all.take(0) =~= Seq::<ToolConfigView>::empty());
    assert(configs_view(out@) =~= Seq::<ToolConfigView>::empty());
    for t in it: tools
        invariant
            it.seq() == source,
            all == configs_view(source),
            configs_view(out@) == one_of_each(all.take(it.index() as int), overrides),
    {
        let ghost done = out@;
        let ghost k = it.index() as int;
        proof {
            assert(all.take(k + 1).drop_last() =~= all.take(k));
            assert(all.take(k + 1).last() == t@);
        }
        let at = find_config(&out, t.name.as_str());
        if at >= out.len() {
            out.push(t);
            assert(configs_view(out@) =~= configs_view(done).push(t@));
        } else if overrides {
            out.set(at, t);
            assert(configs_view(out@) =~= configs_view(done).update(at as int, t@));
        }
    }
    assert(all.take(all.len() as int) =~= all);
    out
}

fn append_configs(out: &mut Vec<ToolConfig>, more: &Vec<ToolConfig>)
    ensures
        configs_view(final(out)@) == configs_view(old(out)@) + configs_view(more@),
{
    let ghost first = configs_view(out@);
    let n = more.len();
    let mut i: usize = 0;
    assert(first + configs_view(more@).take(0) =~= first);
    while i < n
        invariant
            i <= n,
            n == more@.len(),
            configs_view(out@) == first + configs_view(more@).take(i as int),
        decreases n - i,
    {
        let ghost done = out@;
        let t = more[i].clone();
        out.push(t);
        assert(configs_view(out@) =~= configs_view(done).push(t@));
        assert(configs_view(more@).take(i + 1) =~= configs_view(more@).take(i as int).push(t@));
        assert(configs_view(out@) =~= first + configs_view(more@).take(i + 1));
        i = i + 1;
    }
    assert(configs_view(more@).take(n as int) =~= configs_view(more@));
}

// ---------------------------------------------------------------------------
// Merge
// ---------------------------------------------------------------------------

/// What is there of two, the first before the second.
pub open spec fn either<A>(a: Option<A>, b: Option<A>) -> Option<A> {
    match a {
        Some(v) => Some(v),
        None => b,
    }
}

/// Two packages of one name made into one; `first` is the one that wins.
pub open spec fn joined_package(
    first: PackageConfigView,
    second: PackageConfigView,
    overrides: bool,
) -> PackageConfigView {
    PackageConfigView {
        name: first.name,
        version: either(first.version, second.version),
        namespace: either(first.namespace, second.namespace),
        description: either(first.description, second.description),
        dependencies: either(first.dependencies, second.dependencies),
        tools: one_of_each(first.tools + second.tools, overrides),
    }
}

/// The strategy for tools of one name.
pub open spec fn merge_overrides(o: MergeOptions) -> bool {
    o.conflict_strategy == Some(ConflictStrategy::Override)
}

/// The package of the first config wins.
pub open spec fn first_wins(o: MergeOptions) -> bool {
    o.priority_order != Some(PackagePriority::Last)
}

/// A package joined to one that came before it.
pub open spec fn merged_package(
    existing: PackageConfigView,
    pkg: PackageConfigView,
    o: MergeOptions,
) -> PackageConfigView {
    if first_wins(o) {
        joined_package(existing, pkg, merge_overrides(o))
    } else {
        joined_package(pkg, existing, merge_overrides(o))
    }
}

/// The list with a package in its place by name, joined to the one that has its name.
pub open spec fn with_merged(
    v: Seq<PackageConfigView>,
    pkg: PackageConfigView,
    o: MergeOptions,
) -> Seq<PackageConfigView>
    decreases v.len(),
{
    if v.len() == 0 {
        seq![pkg]
    } else if v[0].name == pkg.name {
        seq![merged_package(v[0], pkg, o)] + v.skip(1)
    } else if before(pkg.name, v[0].name) {
        seq![pkg] + v
    } else {
        seq![v[0]] + with_merged(v.skip(1), pkg, o)
    }
}

/// Packages merged one after the other.
pub open spec fn merged_packages(v: Seq<PackageConfigView>, o: MergeOptions) -> Seq<
    PackageConfigView,
>
    decreases v.len(),
{
    if v.len() == 0 {
        v
    } else {
        with_merged(merged_packages(v.drop_last(), o), v.last(), o)
    }
}

/// The packages of all configs, one config after the other.
pub open spec fn all_packages(configs: Seq<ConfigView>) -> Seq<PackageConfigView>
    decreases configs.len(),
{
    if configs.len() == 0 {
        Seq::empty()
    } else {
        all_packages(configs.drop_last()) + configs.last().packages
    }
}

/// Several configs made into one.
pub open spec fn merged_config(configs: Seq<ConfigView>, o: MergeOptions) -> ConfigView {
    if configs.len() == 0 {
        empty_config()
    } else if configs.len() == 1 {
        configs[0]
    } else {
        ConfigView {
            version: "1.0"@,
            config: configs.last().config,
            packages: merged_packages(all_packages(configs), o),
            standalone_tools: None,
        }
    }
}

/// The models of configs.
pub open spec fn all_view(v: Seq<ToolManagerSerializedConfig>) -> Seq<ConfigView> {
    v.map_values(|c: ToolManagerSerializedConfig| c@)
}

fn either_text(a: &Option<String>, b: &Option<String>) -> (r: Option<String>)
    ensures
        crate::types::optional_text(r) == either(
            crate::types::optional_text(*a),
            crate::types::optional_text(*b),
        ),
{
    match a {
        Some(v) => Some(v.clone()),
        None => clone_text(b),
    }
}

fn join_packages(first: &ToolPackageConfig, second: &ToolPackageConfig, strategy: ConflictStrategy)
    -> (r: ToolPackageConfig)
    ensures
        r@ == joined_package(first@, second@, strategy == ConflictStrategy::Override),
{
    let mut tools = clone_configs(&first.tools);
    append_configs(&mut tools, &second.tools);
    let namespace = match clone_choice(&first.namespace) {
        Some(n) => Some(n),
        None => clone_choice(&second.namespace),
    };
    let dependencies = match clone_texts(&first.dependencies) {
        Some(d) => Some(d),
        None => clone_texts(&second.dependencies),
    };
    ToolPackageConfig {
        name: first.name.clone(),
        version: either_text(&first.version, &second.version),
        namespace,
        description: either_text(&first.description, &second.description),
        dependencies,
        tools: deduplicate_tools(tools, strategy),
    }
}

proof fn lemma_with_merged(
    v: Seq<PackageConfigView>,
    i: int,
    pkg: PackageConfigView,
    o: MergeOptions,
)
    requires
        0 <= i <= v.len(),
        forall|k: int|
            0 <= k < i ==> (#[trigger] v[k]).name != pkg.name && !before(pkg.name, v[k].name),
        i < v.len() ==> v[i].name == pkg.name || before(pkg.name, v[i].name),
    ensures
        with_merged(v, pkg, o) == if i < v.len() && v[i].name == pkg.name {
            v.update(i, merged_package(v[i], pkg, o))
        } else {
            v.insert(i, pkg)
        },
    decreases v.len(),
{
    if v.len() == 0 {
        assert(v.insert(0, pkg) =~= seq![pkg]);
    } else if i == 0 {
        if v[0].name == pkg.name {
            assert(v.update(0, merged_package(v[0], pkg, o)) =~= seq![
                merged_package(v[0], pkg, o),
            ] + v.skip(1));
        } else {
            assert(v.insert(0, pkg) =~= seq![pkg] + v);
        }
    } else {
        assert(v[0].name != pkg.name);
        let rest = v.skip(1);
        assert forall|k: int| 0 <= k < i - 1 implies (#[trigger] rest[k]).name != pkg.name
            && !before(pkg.name, rest[k].name) by {
            assert(v[k + 1].name != pkg.name);
        }
        lemma_with_merged(rest, i - 1, pkg, o);
        if i < v.len() && v[i].name == pkg.name {
            assert(v.update(i, merged_package(v[i], pkg, o)) =~= seq![v[0]] + rest.update(
                i - 1,
                merged_package(v[i], pkg, o),
            ));
        } else {
            assert(v.insert(i, pkg) =~= seq![v[0]] + rest.insert(i - 1, pkg));
        }
    }
}

fn merge_package(out: &mut Vec<ToolPackageConfig>, pkg: &ToolPackageConfig, o: MergeOptions)
    ensures
        packages_view(final(out)@) == with_merged(packages_view(old(out)@), pkg@, o),
{
    let ghost all = packages_view(out@);
    let n = out.len();
    let mut i: usize = 0;
    while i < n
        invariant_except_break
            i <= n,
        invariant
            n == out@.len(),
            all == packages_view(out@),
            *out == *old(out),
            forall|k: int|
                0 <= k < i ==> (#[trigger] all[k]).name != pkg@.name && !before(
                    pkg@.name,
                    all[k].name,
                ),
        ensures
            i <= n,
            i < n ==> all[i as int].name == pkg@.name || before(pkg@.name, all[i as int].name),
        decreases n - i,
    {
        if same(out[i].name.as_str(), pkg.name.as_str()) || str_before(
            pkg.name.as_str(),
            out[i].name.as_str(),
        ) {
            break;
        }
        i = i + 1;
    }
    proof {
        lemma_with_merged(all, i as int, pkg@, o);
    }
    if i < n && same(out[i].name.as_str(), pkg.name.as_str()) {
        let strategy = match o.conflict_strategy {
            Some(s) => s,
            None => ConflictStrategy::Warn,
        };
        let last = match o.priority_order {
            Some(PackagePriority::Last) => true,
            _ => false,
        };
        let joined = if last {
            join_packages(pkg, &out[i], strategy)
        } else {
            join_packages(&out[i], pkg, strategy)
        };
        assert(joined@ == merged_package(all[i as int], pkg@, o));
        out.set(i, joined);
        assert(packages_view(out@) =~= all.update(i as int, joined@));
    } else {
        let copy = pkg.clone();
        out.insert(i, copy);
        assert(packages_view(out@) =~= all.insert(i as int, copy@));
    }
}

proof fn lemma_merged_prefix(
    first: Seq<PackageConfigView>,
    more: Seq<PackageConfigView>,
    i: int,
    o: MergeOptions,
)
    requires
        0 <= i < more.len(),
    ensures
        merged_packages(first + more.take(i + 1), o) == with_merged(
            merged_packages(first + more.take(i), o),
            more[i],
            o,
        ),
{
    let v = first + more.take(i + 1);
    assert(v.drop_last() =~= first + more.take(i));
    assert(v.last() == more[i]);
}

impl ToolManagerFactory {
    /// Merge multiple configs into a single one.
    pub fn merge_configs(configs: Vec<ToolManagerSerializedConfig>, options: MergeOptions) -> (r:
        ToolManagerSerializedConfig)
        ensures
            r@ == merged_config(all_view(configs@), options),
    {
        let mut configs = configs;
        let n = configs.len();
        if n == 0 {
            return ToolManagerSerializedConfig::empty();
        }
        if n == 1 {
            assert(all_view(configs@)[0] == configs@[0]@);
            return configs.remove(0);
        }
        let ghost all = all_view(configs@);
        let mut out: Vec<ToolPackageConfig> = Vec::new();
        let mut i: usize = 0;
        assert(all.take(0) =~= Seq::<ConfigView>::empty());
        assert(packages_view(out@) =~= Seq::<PackageConfigView>::empty());
        while i < n
            invariant
                i <= n,
                n == configs@.len(),
                all == all_view(configs@),
                packages_view(out@) == merged_packages(all_packages(all.take(i as int)), options),
            decreases n - i,
        {
            let ghost first = all_packages(all.take(i as int));
            let ghost more = packages_view(configs@[i as int].packages@);
            let m = configs[i].packages.len();
            let mut j: usize = 0;
            assert(first + more.take(0) =~= first);
            while j < m
                invariant
                    j <= m,
                    i < n,
                    n == configs@.len(),
                    m == configs@[i as int].packages@.len(),
                    more == packages_view(configs@[i as int].packages@),
                    packages_view(out@) == merged_packages(first + more.take(j as int), options),
                decreases m - j,
            {
                proof {
                    lemma_merged_prefix(first, more, j as int, options);
                    assert(more[j as int] == configs@[i as int].packages@[j as int]@);
                }
                merge_package(&mut out, &configs[i].packages[j], options);
                j = j + 1;
            }
            proof {
                assert(more.take(m as int) =~= more);
                assert(all.take(i + 1).drop_last() =~= all.take(i as int));
                assert(all.take(i + 1).last().packages == more);
            }
            i = i + 1;
        }
        assert(all.take(n as int) =~= all);
        let config = match &configs[n - 1].config {
            Some(c) => Some(c.clone()),
            None => None,
        };
        assert(all.last() == configs@[n - 1]@);
        ToolManagerSerializedConfig {
            version: String::from_str("1.0"),
            config,
            packages: out,
            standalone_tools: None,
        }
    }
}

// ---------------------------------------------------------------------------
// Scope
// ---------------------------------------------------------------------------

/// The tools whose names are asked for.
pub open spec fn scoped_tools(tools: Seq<ToolConfigView>, names: Seq<Seq<char>>) -> Seq<
    ToolConfigView,
> {
    tools.filter(|t: ToolConfigView| names.contains(t.name))
}

/// A package with only the tools whose names are asked for, where any are left.
pub open spec fn scoped_package(p: PackageConfigView, names: Seq<Seq<char>>) -> Option<
    PackageConfigView,
> {
    if scoped_tools(p.tools, names).len() == 0 {
        None
    } else {
        Some(PackageConfigView { tools: scoped_tools(p.tools, names), ..p })
    }
}

/// A config with only the tools whose names are asked for, in packages and standing alone.
pub open spec fn scoped_config(c: ConfigView, names: Seq<Seq<char>>) -> ConfigView {
    ConfigView {
        packages: c.packages.filter_map(|p: PackageConfigView| scoped_package(p, names)),
        standalone_tools: match c.standalone_tools {
            Some(v) => Some(scoped_tools(v, names)),
            None => None,
        },
        ..c
    }
}

fn scope_tools(tools: Vec<ToolConfig>, names: &Vec<String>) -> (r: Vec<ToolConfig>)
    ensures
        configs_view(r@) == scoped_tools(configs_view(tools@), views(names@)),
{
    let ghost source = tools@;
    let ghost all = configs_view(source);
    let ghost f = |t: ToolConfigView| views(names@).contains(t.name);
    let mut out: Vec<ToolConfig> = Vec::new();
    assert(all.take(0).filter(f) =~= Seq::<ToolConfigView>::empty()) by {
        reveal(Seq::filter);
    }
    assert(configs_view(out@) =~= Seq::<ToolConfigView>::empty());
    for t in it: tools
        invariant
            it.seq() == source,
            all == configs_view(source),
            f == (|t: ToolConfigView| views(names@).contains(t.name)),
            configs_view(out@) == all.take(it.index() as int).filter(f),
    {
        let ghost done = out@;
        let ghost k = it.index() as int;
        proof {
            assert(all.take(k + 1) =~= all.take(k).push(all[k]));
            all.take(k).lemma_filter_push(all[k], f);
            assert(all[k] == t@);
        }
        if listed(names, t.name.as_str()) {
            out.push(t);
            assert(configs_view(out@) =~= configs_view(done).push(t@));
        }
    }
    assert(all.take(all.len() as int) =~= all);
    out
}

impl ToolManagerFactory {
    /// Filter a config down to the given tool names.
    pub fn create_scope_config(config: ToolManagerSerializedConfig, tool_names: &Vec<String>) -> (r:
        ToolManagerSerializedConfig)
        ensures
            r@ == scoped_config(config@, views(tool_names@)),
    {
        let ghost names = views(tool_names@);
        let ghost source = config.packages@;
        let ghost all = packages_view(source);
        let ghost f = |p: PackageConfigView| scoped_package(p, names);
        let mut out: Vec<ToolPackageConfig> = Vec::new();
        assert(all.take(0).filter_map(f) =~= Seq::<PackageConfigView>::empty()) by {
            reveal_with_fuel(Seq::filter_map, 1);
        }
        assert(packages_view(out@) =~= Seq::<PackageConfigView>::empty());
        for pkg in it: config.packages
            invariant
                it.seq() == source,
                all == packages_view(source),
                names == views(tool_names@),
                f == (|p: PackageConfigView| scoped_package(p, names)),
                packages_view(out@) == all.take(it.index() as int).filter_map(f),
        {
            let ghost done = out@;
            let ghost k = it.index() as int;
            proof {
                all.lemma_filter_map_take_succ(f, k);
                assert(all[k] == pkg@);
            }
            let ToolPackageConfig {
                name,
                version,
                namespace,
                description,
                dependencies,
                tools,
            } = pkg;
            let left = scope_tools(tools, tool_names);
            if left.len() > 0 {
                let p = ToolPackageConfig {
                    name,
                    version,
                    namespace,
                    description,
                    dependencies,
                    tools: left,
                };
                out.push(p);
                assert(packages_view(out@) =~= packages_view(done).push(p@));
            } else {
                assert(configs_view(left@).len() == 0);
            }
        }
        assert(all.take(all.len() as int) =~= all);
        assert(all.filter_map(f) == scoped_config(config@, names).packages);
        let standalone_tools = match config.standalone_tools {
            Some(v) => Some(scope_tools(v, tool_names)),
            None => None,
        };
        ToolManagerSerializedConfig {
            version: config.version,
            config: config.config,
            packages: out,
            standalone_tools,
        }
    }
}

// ---------------------------------------------------------------------------
// Diff
// ---------------------------------------------------------------------------

/// The tools of all packages.
pub open spec fn package_tools(packages: Seq<PackageConfigView>) -> Seq<ToolConfigView>
    decreases packages.len(),
{
    if packages.len() == 0 {
        Seq::empty()
    } else {
        package_tools(packages.drop_last()) + packages.last().tools
    }
}

/// The tools of a config by name: where several have one name, the last.
pub open spec fn collected(c: ConfigView) -> Seq<ToolConfigView> {
    one_of_each(package_tools(c.packages) + standalone(c), true)
}

/// The tools of `v` whose names are not in `other`.
pub open spec fn tools_beyond(v: Seq<ToolConfigView>, other: Seq<ToolConfigView>) -> Seq<
    ToolConfigView,
> {
    v.filter(|t: ToolConfigView| !has_tool(other, t.name))
}

/// The packages of `v` whose names are not in `other`.
pub open spec fn packages_beyond(v: Seq<PackageConfigView>, other: Seq<PackageConfigView>) -> Seq<
    PackageConfigView,
> {
    v.filter(|p: PackageConfigView| !has_package(other, p.name))
}

/// What changed under a key.
pub open spec fn key_change(old_value: JsonView, new_value: JsonView, key: Seq<char>) -> Option<
    ChangeView,
> {
    let a = or_null(field(old_value, key));
    let b = or_null(field(new_value, key));
    if same_json(a, b) {
        None
    } else {
        Some(ChangeView { field: key, old_value: Some(a), new_value: Some(b) })
    }
}

/// What changed from one value to another: key by key for two objects, in the order of the
/// keys; as a whole otherwise.
pub open spec fn field_changes(old_value: JsonView, new_value: JsonView) -> Seq<ChangeView> {
    if old_value is Object && new_value is Object {
        object_of(members_of(old_value) + members_of(new_value)).filter_map(
            |e: (Seq<char>, JsonView)| key_change(old_value, new_value, e.0),
        )
    } else if same_json(old_value, new_value) {
        Seq::empty()
    } else {
        seq![
            ChangeView {
                field: "<root>"@,
                old_value: Some(old_value),
                new_value: Some(new_value),
            },
        ]
    }
}

/// The change of a tool, where its definition before was different.
pub open spec fn tool_change(t: ToolConfigView, other: Seq<ToolConfigView>) -> Option<
    ModifiedView,
> {
    let at = tool_position(other, t.name);
    if at < other.len() && !same_json(tool_json(other[at]), tool_json(t)) {
        Some(
            ModifiedView {
                name: t.name,
                before: other[at],
                after: t,
                changes: field_changes(tool_json(other[at]), tool_json(t)),
            },
        )
    } else {
        None
    }
}

/// The tools of `v` that have another definition in `other`, with the changes from there.
pub open spec fn tools_changed(v: Seq<ToolConfigView>, other: Seq<ToolConfigView>) -> Seq<
    ModifiedView,
> {
    v.filter_map(|t: ToolConfigView| tool_change(t, other))
}

/// Settings that may be absent, in JSON.
pub open spec fn maybe_settings(s: Option<SettingsView>) -> Option<JsonView> {
    match s {
        Some(s) => Some(settings_json(s)),
        None => None,
    }
}

/// What changed in the settings.
pub open spec fn settings_changes(a: Option<SettingsView>, b: Option<SettingsView>) -> Option<
    Seq<ChangeView>,
> {
    match (a, b) {
        (None, None) => None,
        (Some(x), Some(y)) => Some(field_changes(settings_json(x), settings_json(y))),
        _ => Some(
            seq![
                ChangeView {
                    field: "config"@,
                    old_value: maybe_settings(a),
                    new_value: maybe_settings(b),
                },
            ],
        ),
    }
}

fn value_at(v: &Json, key: &str) -> (r: Json)
    ensures
        r@ == or_null(field(v@, key@)),
{
    match v.get(key) {
        Some(x) => x.clone(),
        None => Json::Null,
    }
}

/// What changed from one value to another.
pub fn diff_fields(old_value: &Json, new_value: &Json) -> (r: Vec<ConfigFieldChange>)
    ensures
        changes_view(r@) == field_changes(old_value@, new_value@),
{
    let mut out: Vec<ConfigFieldChange> = Vec::new();
    assert(changes_view(out@) =~= Seq::<ChangeView>::empty());
    let both = match (old_value, new_value) {
        (Json::Object(_), Json::Object(_)) => true,
        _ => false,
    };
    if both {
        let mut pairs: Vec<(String, Json)> = Vec::new();
        assert(members_view(pairs@) =~= Seq::<(Seq<char>, JsonView)>::empty());
        add_members(&mut pairs, old_value);
        add_members(&mut pairs, new_value);
        assert(members_view(pairs@) =~= members_of(old_value@) + members_of(new_value@));
        let union = build_object(pairs);
        if let Json::Object(keys) = &union {
            proof {
                lemma_object_view(*keys);
            }
            let ghost all = members_view(keys@);
            let ghost f = |e: (Seq<char>, JsonView)| key_change(old_value@, new_value@, e.0);
            let n = keys.len();
            let mut i: usize = 0;
            assert(all.take(0).filter_map(f) =~= Seq::<ChangeView>::empty()) by {
                reveal_with_fuel(Seq::filter_map, 1);
            }
            while i < n
                invariant
                    i <= n,
                    n == keys@.len(),
                    all == members_view(keys@),
                    f == (|e: (Seq<char>, JsonView)| key_change(old_value@, new_value@, e.0)),
                    changes_view(out@) == all.take(i as int).filter_map(f),
                decreases n - i,
            {
                let ghost done = out@;
                proof {
                    all.lemma_filter_map_take_succ(f, i as int);
                    assert(all[i as int].0 == keys@[i as int].0@);
                }
                let a = value_at(old_value, keys[i].0.as_str());
                let b = value_at(new_value, keys[i].0.as_str());
                if !a.same_as(&b) {
                    let c = ConfigFieldChange {
                        field: keys[i].0.clone(),
                        old_value: Some(a),
                        new_value: Some(b),
                    };
                    out.push(c);
                    assert(changes_view(out@) =~= changes_view(done).push(c@));
                }
                i = i + 1;
            }
            assert(all.take(n as int) =~= all);
            assert(all == object_of(members_of(old_value@) + members_of(new_value@)));
            assert(all.filter_map(f) == field_changes(old_value@, new_value@));
        }
    } else if !old_value.same_as(new_value) {
        let c = ConfigFieldChange {
            field: String::from_str("<root>"),
            old_value: Some(old_value.clone()),
            new_value: Some(new_value.clone()),
        };
        out.push(c);
        assert(changes_view(out@) =~= seq![c@]);
    }
    out
}

/// The tools of a config by name.
pub fn collect_tools(config: &ToolManagerSerializedConfig) -> (r: Vec<ToolConfig>)
    ensures
        configs_view(r@) == collected(config@),
{
    let ghost all = packages_view(config.packages@);
    let mut out: Vec<ToolConfig> = Vec::new();
    let n = config.packages.len();
    let mut i: usize = 0;
    assert(all.take(0) =~= Seq::<PackageConfigView>::empty());
    assert(configs_view(out@) =~= Seq::<ToolConfigView>::empty());
    while i < n
        invariant
            i <= n,
            n == config.packages@.len(),
            all == packages_view(config.packages@),
            configs_view(out@) == package_tools(all.take(i as int)),
        decreases n - i,
    {
        assert(all.take(i + 1).drop_last() =~= all.take(i as int));
        assert(all.take(i + 1).last() == config.packages@[i as int]@);
        append_configs(&mut out, &config.packages[i].tools);
        i = i + 1;
    }
    assert(all.take(n as int) =~= all);
    match &config.standalone_tools {
        Some(tools) => append_configs(&mut out, tools),
        None => {
            assert(configs_view(out@) =~= configs_view(out@) + Seq::<ToolConfigView>::empty());
        },
    }
    deduplicate_tools(out, ConflictStrategy::Override)
}

fn beyond(v: &Vec<ToolConfig>, other: &Vec<ToolConfig>) -> (r: Vec<ToolConfig>)
    ensures
        configs_view(r@) == tools_beyond(configs_view(v@), configs_view(other@)),
{
    let ghost all = configs_view(v@);
    let ghost f = |t: ToolConfigView| !has_tool(configs_view(other@), t.name);
    let mut out: Vec<ToolConfig> = Vec::new();
    let n = v.len();
    let mut i: usize = 0;
    assert(all.take(0).filter(f) =~= Seq::<ToolConfigView>::empty()) by {
        reveal(Seq::filter);
    }
    assert(configs_view(out@) =~= Seq::<ToolConfigView>::empty());
    while i < n
        invariant
            i <= n,
            n == v@.len(),
            all == configs_view(v@),
            f == (|t: ToolConfigView| !has_tool(configs_view(other@), t.name)),
            configs_view(out@) == all.take(i as int).filter(f),
        decreases n - i,
    {
        let ghost done = out@;
        proof {
            assert(all.take(i + 1) =~= all.take(i as int).push(all[i as int]));
            all.take(i as int).lemma_filter_push(all[i as int], f);
            lemma_tool_position(configs_view(other@), all[i as int].name);
        }
        if find_config(other, v[i].name.as_str()) >= other.len() {
            let t = v[i].clone();
            out.push(t);
            assert(configs_view(out@) =~= configs_view(done).push(t@));
        }
        i = i + 1;
    }
    assert(all.take(n as int) =~= all);
    out
}

fn changed(v: &Vec<ToolConfig>, other: &Vec<ToolConfig>) -> (r: Vec<ModifiedTool>)
    ensures
        modified_view(r@) == tools_changed(configs_view(v@), configs_view(other@)),
{
    let ghost all = configs_view(v@);
    let ghost f = |t: ToolConfigView| tool_change(t, configs_view(other@));
    let mut out: Vec<ModifiedTool> = Vec::new();
    let n = v.len();
    let mut i: usize = 0;
    assert(all.take(0).filter_map(f) =~= Seq::<ModifiedView>::empty()) by {
        reveal_with_fuel(Seq::filter_map, 1);
    }
    assert(modified_view(out@) =~= Seq::<ModifiedView>::empty());
    while i < n
        invariant
            i <= n,
            n == v@.len(),
            all == configs_view(v@),
            f == (|t: ToolConfigView| tool_change(t, configs_view(other@))),
            modified_view(out@) == all.take(i as int).filter_map(f),
        decreases n - i,
    {
        let ghost done = out@;
        proof {
            all.lemma_filter_map_take_succ(f, i as int);
            assert(all[i as int] == v@[i as int]@);
        }
        let at = find_config(other, v[i].name.as_str());
        if at < other.len() {
            assert(configs_view(other@)[at as int] == other@[at as int]@);
            let a = other[at].to_json();
            let b = v[i].to_json();
            if !a.same_as(&b) {
                let m = ModifiedTool {
                    name: v[i].name.clone(),
                    old: other[at].clone(),
                    new: v[i].clone(),
                    changes: diff_fields(&a, &b),
                };
                out.push(m);
                assert(modified_view(out@) =~= modified_view(done).push(m@));
            }
        }
        i = i + 1;
    }
    assert(all.take(n as int) =~= all);
    out
}

fn package_among(packages: &Vec<ToolPackageConfig>, name: &str) -> (r: bool)
    ensures
        r == has_package(packages_view(packages@), name@),
{
    let ghost all = packages_view(packages@);
    let n = packages.len();
    let mut i: usize = 0;
    while i < n
        invariant
            i <= n,
            n == packages@.len(),
            all == packages_view(packages@),
            forall|k: int| 0 <= k < i ==> (#[trigger] all[k]).name != name@,
        decreases n - i,
    {
        if same(packages[i].name.as_str(), name) {
            assert(all[i as int].name == name@);
            return true;
        }
        i = i + 1;
    }
    false
}

fn other_packages(v: &Vec<ToolPackageConfig>, other: &Vec<ToolPackageConfig>) -> (r: Vec<
    ToolPackageConfig,
>)
    ensures
        packages_view(r@) == packages_beyond(packages_view(v@), packages_view(other@)),
{
    let ghost all = packages_view(v@);
    let ghost f = |p: PackageConfigView| !has_package(packages_view(other@), p.name);
    let mut out: Vec<ToolPackageConfig> = Vec::new();
    let n = v.len();
    let mut i: usize = 0;
    assert(all.take(0).filter(f) =~= Seq::<PackageConfigView>::empty()) by {
        reveal(Seq::filter);
    }
    assert(packages_view(out@) =~= Seq::<PackageConfigView>::empty());
    while i < n
        invariant
            i <= n,
            n == v@.len(),
            all == packages_view(v@),
            f == (|p: PackageConfigView| !has_package(packages_view(other@), p.name)),
            packages_view(out@) == all.take(i as int).filter(f),
        decreases n - i,
    {
        let ghost done = out@;
        proof {
            assert(all.take(i + 1) =~= all.take(i as int).push(all[i as int]));
            all.take(i as int).lemma_filter_push(all[i as int], f);
            assert(all[i as int] == v@[i as int]@);
        }
        if !package_among(other, v[i].name.as_str()) {
            let p = v[i].clone();
            out.push(p);
            assert(packages_view(out@) =~= packages_view(done).push(p@));
        }
        i = i + 1;
    }
    assert(all.take(n as int) =~= all);
    out
}

fn maybe_json(s: &Option<SerializedManagerConfig>) -> (r: Option<Json>)
    ensures
        optional_view(r) == maybe_settings(crate::serialized::optional_settings(*s)),
{
    match s {
        Some(s) => Some(s.to_json()),
        None => None,
    }
}

fn diff_settings(a: &Option<SerializedManagerConfig>, b: &Option<SerializedManagerConfig>) -> (r:
    Option<Vec<ConfigFieldChange>>)
    ensures
        (match r {
            Some(v) => Some(changes_view(v@)),
            None => None,
        }) == settings_changes(
            crate::serialized::optional_settings(*a),
            crate::serialized::optional_settings(*b),
        ),
{
    match (a, b) {
        (None, None) => None,
        (Some(x), Some(y)) => Some(diff_fields(&x.to_json(), &y.to_json())),
        _ => {
            let c = ConfigFieldChange {
                field: String::from_str("config"),
                old_value: maybe_json(a),
                new_value: maybe_json(b),
            };
            let mut out: Vec<ConfigFieldChange> = Vec::new();
            out.push(c);
            assert(changes_view(out@) =~= seq![c@]);
            Some(out)
        },
    }
}

/// The diff is the one between these configs.
pub open spec fn diff_fits(d: ConfigDiff, a: ConfigView, b: ConfigView) -> bool {
    &&& configs_view(d.added@) == tools_beyond(collected(b), collected(a))
    &&& configs_view(d.removed@) == tools_beyond(collected(a), collected(b))
    &&& modified_view(d.modified@) == tools_changed(collected(b), collected(a))
    &&& packages_view(d.added_packages@) == packages_beyond(b.packages, a.packages)
    &&& packages_view(d.removed_packages@) == packages_beyond(a.packages, b.packages)
    &&& d.modified_packages@.len() == 0
    &&& (match d.config_changes {
        Some(v) => Some(changes_view(v@)),
        None => None,
    }) == settings_changes(a.config, b.config)
    &&& d.identical == (d.added@.len() == 0 && d.removed@.len() == 0 && d.modified@.len() == 0)
}

impl ToolManagerFactory {
    /// Compute a diff between two configs.
    pub fn diff_configs(a: &ToolManagerSerializedConfig, b: &ToolManagerSerializedConfig) -> (r:
        ConfigDiff)
        ensures
            diff_fits(r, a@, b@),
    {
        let tools_a = collect_tools(a);
        let tools_b = collect_tools(b);
        let added = beyond(&tools_b, &tools_a);
        let modified = changed(&tools_b, &tools_a);
        let removed = beyond(&tools_a, &tools_b);
        let identical = added.len() == 0 && removed.len() == 0 && modified.len() == 0;
        ConfigDiff {
            added,
            removed,
            modified,
            added_packages: other_packages(&b.packages, &a.packages),
            removed_packages: other_packages(&a.packages, &b.packages),
            modified_packages: Vec::new(),
            config_changes: diff_settings(&a.config, &b.config),
            identical,
        }
    }
}

// ---------------------------------------------------------------------------
// Laws
// ---------------------------------------------------------------------------

/// No two of the tools have one name.
pub open spec fn names_differ(v: Seq<ToolConfigView>) -> bool {
    forall|i: int, j: int| 0 <= i < j < v.len() ==> (#[trigger] v[i]).name != (#[trigger] v[j]).name
}

/// The first tool of this name.
pub open spec fn definition(v: Seq<ToolConfigView>, name: Seq<char>) -> Option<ToolConfigView> {
    if tool_position(v, name) < v.len() {
        Some(v[tool_position(v, name)])
    } else {
        None
    }
}

/// The last tool of this name.
pub open spec fn last_definition(v: Seq<ToolConfigView>, name: Seq<char>) -> Option<ToolConfigView>
    decreases v.len(),
{
    if v.len() == 0 {
        None
    } else if v.last().name == name {
        Some(v.last())
    } else {
        last_definition(v.drop_last(), name)
    }
}

proof fn lemma_definition_push(v: Seq<ToolConfigView>, t: ToolConfigView, name: Seq<char>)
    ensures
        definition(v.push(t), name) == either(
            definition(v, name),
            if t.name == name {
                Some(t)
            } else {
                None
            },
        ),
{
    let w = v.push(t);
    let at = tool_position(v, name);
    lemma_tool_position(v, name);
    assert forall|k: int| 0 <= k < at implies (#[trigger] w[k]).name != name by {
        assert(w[k] == v[k]);
    }
    if at < v.len() || t.name == name {
        lemma_position_is(w, at, name);
    } else {
        lemma_position_is(w, w.len() as int, name);
    }
}

proof fn lemma_definition_update(v: Seq<ToolConfigView>, t: ToolConfigView, name: Seq<char>)
    requires
        tool_position(v, t.name) < v.len(),
    ensures
        definition(v.update(tool_position(v, t.name), t), name) == if t.name == name {
            Some(t)
        } else {
            definition(v, name)
        },
{
    let at = tool_position(v, t.name);
    let w = v.update(at, t);
    lemma_tool_position(v, t.name);
    lemma_tool_position(v, name);
    if t.name == name {
        lemma_position_is(w, at, name);
    } else {
        let i = tool_position(v, name);
        assert forall|k: int| 0 <= k < i implies (#[trigger] w[k]).name != name by {
            if k != at {
                assert(w[k] == v[k]);
            }
        }
        lemma_position_is(w, i, name);
    }
}

/// One tool of each name is left, no name is lost, and of several tools of one name the
/// first is kept, or the last where later ones override.
pub proof fn law_one_of_each(v: Seq<ToolConfigView>, overrides: bool, name: Seq<char>)
    ensures
        names_differ(one_of_each(v, overrides)),
        has_tool(one_of_each(v, overrides), name) == has_tool(v, name),
        definition(one_of_each(v, overrides), name) == if overrides {
            last_definition(v, name)
        } else {
            definition(v, name)
        },
    decreases v.len(),
{
    if v.len() > 0 {
        let rest = v.drop_last();
        let t = v.last();
        let d = one_of_each(rest, overrides);
        let w = one_of_each(v, overrides);
        law_one_of_each(rest, overrides, name);
        assert(rest.push(t) =~= v);
        lemma_definition_push(rest, t, name);
        lemma_definition_push(d, t, name);
        lemma_tool_position(d, t.name);
        lemma_tool_position(d, name);
        lemma_tool_position(w, name);
        lemma_tool_position(v, name);
        lemma_tool_position(rest, name);
        let at = tool_position(d, t.name);
        if at < d.len() {
            lemma_definition_update(d, t, name);
            law_one_of_each(rest, overrides, t.name);
        }
        assert forall|i: int, j: int| 0 <= i < j < w.len() implies (#[trigger] w[i]).name != (
        #[trigger] w[j]).name by {
            if at >= d.len() {
                assert(w[i] == d[i]);
                if j < d.len() {
                    assert(w[j] == d[j]);
                }
            } else {
                assert(w[i].name == d[i].name);
                assert(w[j].name == d[j].name);
            }
        }
        lemma_has_last(rest, t.name);
        lemma_has_last(rest, name);
    }
}

proof fn lemma_has_last(v: Seq<ToolConfigView>, name: Seq<char>)
    ensures
        (last_definition(v, name) is Some) == has_tool(v, name),
    decreases v.len(),
{
    if v.len() > 0 {
        let rest = v.drop_last();
        lemma_has_last(rest, name);
        if v.last().name == name {
            assert(v[v.len() - 1].name == name);
        } else {
            if has_tool(v, name) {
                let k = choose|k: int| 0 <= k < v.len() && (#[trigger] v[k]).name == name;
                assert(rest[k].name == name);
            }
            if has_tool(rest, name) {
                let k = choose|k: int| 0 <= k < rest.len() && (#[trigger] rest[k]).name == name;
                assert(v[k].name == name);
            }
        }
    }
}

proof fn lemma_definition_add(a: Seq<ToolConfigView>, b: Seq<ToolConfigView>, name: Seq<char>)
    ensures
        definition(a + b, name) == either(definition(a, name), definition(b, name)),
    decreases b.len(),
{
    if b.len() == 0 {
        assert(a + b =~= a);
    } else {
        let rest = b.drop_last();
        lemma_definition_add(a, rest, name);
        assert(a + b =~= (a + rest).push(b.last()));
        assert(rest.push(b.last()) =~= b);
        lemma_definition_push(a + rest, b.last(), name);
        lemma_definition_push(rest, b.last(), name);
    }
}

/// When two packages are joined and later tools do not override, a tool that the winning
/// package defines is defined as there, and one that only the other defines as in the other.
pub proof fn law_winner_defines(
    first: PackageConfigView,
    second: PackageConfigView,
    name: Seq<char>,
)
    ensures
        definition(joined_package(first, second, false).tools, name) == either(
            definition(first.tools, name),
            definition(second.tools, name),
        ),
{
    law_one_of_each(first.tools + second.tools, false, name);
    lemma_definition_add(first.tools, second.tools, name);
}

/// The packages stand in the order of their names, each name once.
pub open spec fn ordered_by_name(v: Seq<PackageConfigView>) -> bool {
    forall|i: int, j: int|
        0 <= i < j < v.len() ==> before((#[trigger] v[i]).name, (#[trigger] v[j]).name)
}

proof fn lemma_with_merged_ordered(
    v: Seq<PackageConfigView>,
    pkg: PackageConfigView,
    o: MergeOptions,
    name: Seq<char>,
)
    requires
        ordered_by_name(v),
    ensures
        ordered_by_name(with_merged(v, pkg, o)),
        has_package(with_merged(v, pkg, o), name) == (has_package(v, name) || name == pkg.name),
        forall|i: int|
            0 <= i < with_merged(v, pkg, o).len() ==> (#[trigger] with_merged(v, pkg, o)[i]).name
                == pkg.name || has_package(v, with_merged(v, pkg, o)[i].name),
    decreases v.len(),
{
    let w = with_merged(v, pkg, o);
    if v.len() == 0 {
        assert(w[0].name == pkg.name);
    } else {
        let rest = v.skip(1);
        assert forall|i: int, j: int| 0 <= i < j < rest.len() implies before(
            (#[trigger] rest[i]).name,
            (#[trigger] rest[j]).name,
        ) by {
            assert(before(v[i + 1].name, v[j + 1].name));
        }
        lemma_before_total(pkg.name, v[0].name);
        if v[0].name == pkg.name {
            assert forall|i: int| 0 <= i < w.len() implies (#[trigger] w[i]).name == v[i].name by {}
            assert forall|i: int, j: int| 0 <= i < j < w.len() implies before(
                (#[trigger] w[i]).name,
                (#[trigger] w[j]).name,
            ) by {
                assert(before(v[i].name, v[j].name));
            }
            if has_package(v, name) {
                let k = choose|k: int| 0 <= k < v.len() && (#[trigger] v[k]).name == name;
                assert(w[k].name == name);
            }
            if has_package(w, name) {
                let k = choose|k: int| 0 <= k < w.len() && (#[trigger] w[k]).name == name;
                assert(v[k].name == name);
            }
            assert(w[0].name == pkg.name);
            assert forall|i: int| 0 <= i < w.len() implies (#[trigger] w[i]).name == pkg.name
                || has_package(v, w[i].name) by {
                assert(v[i].name == w[i].name);
            }
        } else if before(pkg.name, v[0].name) {
            assert(w == seq![pkg] + v);
            assert forall|i: int, j: int| 0 <= i < j < w.len() implies before(
                (#[trigger] w[i]).name,
                (#[trigger] w[j]).name,
            ) by {
                assert(w[j] == v[j - 1]);
                if i == 0 {
                    if j > 1 {
                        assert(before(v[0].name, v[j - 1].name));
                        lemma_before_transitive(pkg.name, v[0].name, v[j - 1].name);
                    }
                } else {
                    assert(w[i] == v[i - 1]);
                }
            }
            if has_package(v, name) {
                let k = choose|k: int| 0 <= k < v.len() && (#[trigger] v[k]).name == name;
                assert(w[k + 1].name == name);
            }
            assert(w[0].name == pkg.name);
            assert forall|i: int| 0 <= i < w.len() implies (#[trigger] w[i]).name == pkg.name
                || has_package(v, w[i].name) by {
                if i > 0 {
                    assert(v[i - 1].name == w[i].name);
                }
            }
            if has_package(w, name) {
                let k = choose|k: int| 0 <= k < w.len() && (#[trigger] w[k]).name == name;
                if k > 0 {
                    assert(v[k - 1].name == name);
                }
            }
        } else {
            lemma_with_merged_ordered(rest, pkg, o, name);
            let m = with_merged(rest, pkg, o);
            assert(w == seq![v[0]] + m);
            assert forall|i: int| 0 <= i < m.len() implies before(
                v[0].name,
                (#[trigger] m[i]).name,
            ) by {
                if m[i].name != pkg.name {
                    let k = choose|k: int| 0 <= k < rest.len() && (#[trigger] rest[k]).name
                        == m[i].name;
                    assert(before(v[0].name, v[k + 1].name));
                }
            }
            assert forall|i: int, j: int| 0 <= i < j < w.len() implies before(
                (#[trigger] w[i]).name,
                (#[trigger] w[j]).name,
            ) by {
                assert(w[j] == m[j - 1]);
                if i > 0 {
                    assert(w[i] == m[i - 1]);
                }
            }
            assert(has_package(v, v[0].name));
            assert forall|i: int| 0 <= i < w.len() implies (#[trigger] w[i]).name == pkg.name
                || has_package(v, w[i].name) by {
                if i > 0 {
                    assert(w[i] == m[i - 1]);
                    if m[i - 1].name != pkg.name {
                        let k = choose|k: int| 0 <= k < rest.len() && (#[trigger] rest[k]).name
                            == m[i - 1].name;
                        assert(v[k + 1].name == w[i].name);
                    }
                } else {
                    assert(v[0].name == w[0].name);
                }
            }
            if has_package(v, name) || name == pkg.name {
                if v[0].name == name {
                    assert(w[0].name == name);
                } else {
                    if has_package(v, name) {
                        let k = choose|k: int| 0 <= k < v.len() && (#[trigger] v[k]).name == name;
                        assert(rest[k - 1].name == name);
                    }
                    let k = choose|k: int| 0 <= k < m.len() && (#[trigger] m[k]).name == name;
                    assert(w[k + 1].name == name);
                }
            }
        }
    }
}

/// Merged packages stand in the order of their names, each name once, and no name is lost
/// and none is new.
pub proof fn law_merged_names(v: Seq<PackageConfigView>, o: MergeOptions, name: Seq<char>)
    ensures
        ordered_by_name(merged_packages(v, o)),
        has_package(merged_packages(v, o), name) == has_package(v, name),
    decreases v.len(),
{
    if v.len() > 0 {
        let rest = v.drop_last();
        law_merged_names(rest, o, name);
        lemma_with_merged_ordered(merged_packages(rest, o), v.last(), o, name);
        if has_package(v, name) {
            let k = choose|k: int| 0 <= k < v.len() && (#[trigger] v[k]).name == name;
            if k < rest.len() {
                assert(rest[k].name == name);
            }
        }
        if has_package(rest, name) {
            let k = choose|k: int| 0 <= k < rest.len() && (#[trigger] rest[k]).name == name;
            assert(v[k].name == name);
        }
        if name == v.last().name {
            assert(v[v.len() - 1].name == name);
        }
    }
}

proof fn lemma_filter_none<A>(v: Seq<A>, f: spec_fn(A) -> bool)
    requires
        forall|i: int| 0 <= i < v.len() ==> !f(#[trigger] v[i]),
    ensures
        v.filter(f) == Seq::<A>::empty(),
    decreases v.len(),
{
    reveal(Seq::filter);
    if v.len() > 0 {
        let rest = v.drop_last();
        assert forall|i: int| 0 <= i < rest.len() implies !f(#[trigger] rest[i]) by {
            assert(!f(v[i]));
        }
        lemma_filter_none(rest, f);
        assert(!f(v[v.len() - 1]));
    } else {
        assert(v.filter(f) =~= Seq::<A>::empty());
    }
}

proof fn lemma_filter_map_none<A, B>(v: Seq<A>, f: spec_fn(A) -> Option<B>)
    requires
        forall|i: int| 0 <= i < v.len() ==> f(#[trigger] v[i]) is None,
    ensures
        v.filter_map(f) == Seq::<B>::empty(),
    decreases v.len(),
{
    reveal_with_fuel(Seq::filter_map, 1);
    if v.len() > 0 {
        let rest = v.drop_last();
        assert forall|i: int| 0 <= i < rest.len() implies f(#[trigger] rest[i]) is None by {
            assert(f(v[i]) is None);
        }
        lemma_filter_map_none(rest, f);
        assert(f(v[v.len() - 1]) is None);
    } else {
        assert(v.filter_map(f) =~= Seq::<B>::empty());
    }
}

proof fn lemma_no_field_changes(v: JsonView)
    ensures
        field_changes(v, v) == Seq::<ChangeView>::empty(),
{
    law_same_json_reflexive(v);
    if v is Object {
        let keys = object_of(members_of(v) + members_of(v));
        let f = |e: (Seq<char>, JsonView)| key_change(v, v, e.0);
        assert forall|i: int| 0 <= i < keys.len() implies f(#[trigger] keys[i]) is None by {
            law_same_json_reflexive(or_null(field(v, keys[i].0)));
        }
        lemma_filter_map_none(keys, f);
    }
}

/// A config does not differ from itself.
pub proof fn law_diff_with_itself(c: ConfigView)
    ensures
        tools_beyond(collected(c), collected(c)).len() == 0,
        tools_changed(collected(c), collected(c)).len() == 0,
        packages_beyond(c.packages, c.packages).len() == 0,
        settings_changes(c.config, c.config) matches Some(v) ==> v.len() == 0,
{
    let v = collected(c);
    law_one_of_each(package_tools(c.packages) + standalone(c), true, Seq::empty());
    let f = |t: ToolConfigView| !has_tool(v, t.name);
    assert forall|i: int| 0 <= i < v.len() implies !f(#[trigger] v[i]) by {
        assert(has_tool(v, v[i].name));
    }
    lemma_filter_none(v, f);
    let g = |t: ToolConfigView| tool_change(t, v);
    assert forall|i: int| 0 <= i < v.len() implies g(#[trigger] v[i]) is None by {
        let at = tool_position(v, v[i].name);
        lemma_tool_position(v, v[i].name);
        assert(has_tool(v, v[i].name));
        if at < i {
            assert(v[at].name != v[i].name);
        }
        if i < at {
            assert(v[i].name != v[at].name);
        }
        law_same_json_reflexive(tool_json(v[i]));
    }
    lemma_filter_map_none(v, g);
    let h = |p: PackageConfigView| !has_package(c.packages, p.name);
    assert forall|i: int| 0 <= i < c.packages.len() implies !h(#[trigger] c.packages[i]) by {
        assert(has_package(c.packages, c.packages[i].name));
    }
    lemma_filter_none(c.packages, h);
    if let Some(s) = c.config {
        lemma_no_field_changes(settings_json(s));
    }
}

/// What is added on the way from one config to another is removed on the way back.
pub proof fn law_diff_turned_round(d: ConfigDiff, e: ConfigDiff, a: ConfigView, b: ConfigView)
    requires
        diff_fits(d, a, b),
        diff_fits(e, b, a),
    ensures
        configs_view(d.added@) == configs_view(e.removed@),
        configs_view(d.removed@) == configs_view(e.added@),
        packages_view(d.added_packages@) == packages_view(e.removed_packages@),
        packages_view(d.removed_packages@) == packages_view(e.added_packages@),
{
}

proof fn lemma_scoped_tools(tools: Seq<ToolConfigView>, names: Seq<Seq<char>>)
    ensures
        forall|i: int|
            0 <= i < scoped_tools(tools, names).len() ==> names.contains(
                (#[trigger] scoped_tools(tools, names)[i]).name,
            ) && tools.contains(scoped_tools(tools, names)[i]),
        forall|i: int|
            0 <= i < tools.len() && names.contains((#[trigger] tools[i]).name) ==> scoped_tools(
                tools,
                names,
            ).contains(tools[i]),
    decreases tools.len(),
{
    let f = |t: ToolConfigView| names.contains(t.name);
    reveal(Seq::filter);
    if tools.len() > 0 {
        let rest = tools.drop_last();
        lemma_scoped_tools(rest, names);
        let d = rest.filter(f);
        let w = tools.filter(f);
        assert forall|i: int| 0 <= i < w.len() implies names.contains((#[trigger] w[i]).name)
            && tools.contains(w[i]) by {
            if i < d.len() {
                assert(w[i] == d[i]);
                let k = choose|k: int| 0 <= k < rest.len() && rest[k] == d[i];
                assert(tools[k] == w[i]);
            } else {
                assert(tools[tools.len() - 1] == w[i]);
            }
        }
        assert forall|i: int|
            0 <= i < tools.len() && names.contains((#[trigger] tools[i]).name) implies w.contains(
            tools[i],
        ) by {
            if i < rest.len() {
                assert(rest[i] == tools[i]);
                assert(d.contains(rest[i]));
                let k = choose|k: int| 0 <= k < d.len() && d[k] == rest[i];
                assert(w[k] == tools[i]);
            } else {
                assert(w[w.len() - 1] == tools[i]);
            }
        }
    }
}

/// A package in a scope has tools, only those that were asked for, and all of those.
pub proof fn law_scoped_package(p: PackageConfigView, names: Seq<Seq<char>>, t: ToolConfigView)
    ensures
        match scoped_package(p, names) {
            Some(q) => q.tools.len() > 0 && q.tools.contains(t) == (p.tools.contains(t)
                && names.contains(t.name)) && q.name == p.name,
            None => !(p.tools.contains(t) && names.contains(t.name)),
        },
{
    lemma_scoped_contains(p.tools, names, t);
}

proof fn lemma_scoped_contains(tools: Seq<ToolConfigView>, names: Seq<Seq<char>>, t: ToolConfigView)
    ensures
        scoped_tools(tools, names).contains(t) == (tools.contains(t) && names.contains(t.name)),
{
    lemma_scoped_tools(tools, names);
    let w = scoped_tools(tools, names);
    if tools.contains(t) && names.contains(t.name) {
        let k = choose|k: int| 0 <= k < tools.len() && tools[k] == t;
        assert(w.contains(tools[k]));
    }
    if w.contains(t) {
        let k = choose|k: int| 0 <= k < w.len() && w[k] == t;
        assert(names.contains(w[k].name));
    }
}

proof fn lemma_scoped_packages(
    packages: Seq<PackageConfigView>,
    names: Seq<Seq<char>>,
    t: ToolConfigView,
)
    ensures
        package_tools(
            packages.filter_map(|p: PackageConfigView| scoped_package(p, names)),
        ).contains(t) == (package_tools(packages).contains(t) && names.contains(t.name)),
    decreases packages.len(),
{
    let f = |p: PackageConfigView| scoped_package(p, names);
    let kept = packages.filter_map(f);
    reveal(Seq::filter_map);
    if packages.len() > 0 {
        let rest = packages.drop_last();
        let p = packages.last();
        let before = rest.filter_map(f);
        lemma_scoped_packages(rest, names, t);
        lemma_scoped_contains(p.tools, names, t);
        lemma_in_sum(package_tools(rest), p.tools, t);
        match scoped_package(p, names) {
            Some(q) => {
                assert(kept =~= before.push(q));
                assert(kept.drop_last() =~= before);
                lemma_in_sum(package_tools(before), q.tools, t);
            },
            None => {
                assert(kept =~= before);
                assert(!scoped_tools(p.tools, names).contains(t));
            },
        }
    }
}

proof fn lemma_in_sum(a: Seq<ToolConfigView>, b: Seq<ToolConfigView>, t: ToolConfigView)
    ensures
        (a + b).contains(t) == (a.contains(t) || b.contains(t)),
{
    if a.contains(t) {
        let k = choose|k: int| 0 <= k < a.len() && a[k] == t;
        assert((a + b)[k] == t);
    }
    if b.contains(t) {
        let k = choose|k: int| 0 <= k < b.len() && b[k] == t;
        assert((a + b)[a.len() + k] == t);
    }
}

/// A config in a scope has only tools that were asked for, and all of those, whether they are
/// in packages or stand alone.
pub proof fn law_scoped_config(c: ConfigView, names: Seq<Seq<char>>, t: ToolConfigView)
    ensures
        package_tools(scoped_config(c, names).packages).contains(t) == (package_tools(
            c.packages,
        ).contains(t) && names.contains(t.name)),
        standalone(scoped_config(c, names)).contains(t) == (standalone(c).contains(t)
            && names.contains(t.name)),
{
    lemma_scoped_packages(c.packages, names, t);
    lemma_scoped_contains(standalone(c), names, t);
}

// ---------------------------------------------------------------------------
// What merging and comparing give
// ---------------------------------------------------------------------------

/// Of two configs or more the settings are those of the last, whatever the others say; the
/// result has the current version. A config alone stays as it is, and out of none comes one
/// that holds nothing.
pub proof fn law_last_settings_win(configs: Seq<ConfigView>, o: MergeOptions)
    ensures
        configs.len() >= 2 ==> merged_config(configs, o).config == configs[configs.len()
            - 1].config && merged_config(configs, o).version == "1.0"@,
        configs.len() == 1 ==> merged_config(configs, o) == configs[0],
        configs.len() == 0 ==> merged_config(configs, o).packages.len() == 0 && merged_config(
            configs,
            o,
        ).config is None && standalone(merged_config(configs, o)).len() == 0,
{
}

/// Changing the settings of any config but the last changes nothing in what is merged.
pub proof fn law_earlier_settings_do_not_matter(
    a: ConfigView,
    other: ConfigView,
    b: ConfigView,
    o: MergeOptions,
)
    requires
        a.packages == other.packages,
    ensures
        merged_config(seq![a, b], o) == merged_config(seq![other, b], o),
        merged_config(seq![a, b], o).config == b.config,
{
    lemma_packages_of_two(a, b);
    lemma_packages_of_two(other, b);
}

proof fn lemma_packages_of_two(a: ConfigView, b: ConfigView)
    ensures
        all_packages(seq![a, b]) == a.packages + b.packages,
{
    let v = seq![a, b];
    assert(v.drop_last() =~= seq![a]);
    assert(v.drop_last().drop_last() =~= Seq::<ConfigView>::empty());
    reveal_with_fuel(all_packages, 3);
    assert(all_packages(v.drop_last()) =~= a.packages);
}

/// A package whose name no other has comes out of a merge as it went in.
pub proof fn law_lone_packages_stay(
    v: Seq<PackageConfigView>,
    o: MergeOptions,
    i: int,
)
    requires
        0 <= i < v.len(),
        forall|j: int| 0 <= j < v.len() && j != i ==> (#[trigger] v[j]).name != v[i].name,
    ensures
        merged_packages(v, o).contains(v[i]),
    decreases v.len(),
{
    let rest = v.drop_last();
    law_merged_names(rest, o, v[i].name);
    law_merged_names(rest, o, v.last().name);
    let m = merged_packages(rest, o);
    if i == rest.len() {
        if has_package(rest, v[i].name) {
            let k = choose|k: int| 0 <= k < rest.len() && (#[trigger] rest[k]).name == v[i].name;
            assert(v[k].name == v[i].name);
        }
        lemma_put_new(m, v.last(), o);
    } else {
        assert forall|j: int| 0 <= j < rest.len() && j != i implies (#[trigger] rest[j]).name
            != rest[i].name by {
            assert(rest[j] == v[j]);
        }
        law_lone_packages_stay(rest, o, i);
        assert(rest[i] == v[i]);
        assert(v[v.len() - 1].name != v[i].name);
        lemma_others_stay(m, v.last(), o, v[i]);
    }
}

proof fn lemma_put_new(v: Seq<PackageConfigView>, pkg: PackageConfigView, o: MergeOptions)
    requires
        !has_package(v, pkg.name),
    ensures
        with_merged(v, pkg, o).contains(pkg),
    decreases v.len(),
{
    let w = with_merged(v, pkg, o);
    if v.len() == 0 {
        assert(w[0] == pkg);
    } else {
        assert(v[0].name != pkg.name);
        if before(pkg.name, v[0].name) {
            assert(w[0] == pkg);
        } else {
            assert(!has_package(v.skip(1), pkg.name)) by {
                if has_package(v.skip(1), pkg.name) {
                    let k = choose|k: int|
                        0 <= k < v.skip(1).len() && (#[trigger] v.skip(1)[k]).name == pkg.name;
                    assert(v[k + 1].name == pkg.name);
                }
            }
            lemma_put_new(v.skip(1), pkg, o);
            let d = with_merged(v.skip(1), pkg, o);
            let k = choose|k: int| 0 <= k < d.len() && d[k] == pkg;
            assert(w[k + 1] == pkg);
        }
    }
}

proof fn lemma_others_stay(
    v: Seq<PackageConfigView>,
    pkg: PackageConfigView,
    o: MergeOptions,
    other: PackageConfigView,
)
    requires
        v.contains(other),
        other.name != pkg.name,
    ensures
        with_merged(v, pkg, o).contains(other),
    decreases v.len(),
{
    let w = with_merged(v, pkg, o);
    let k = choose|k: int| 0 <= k < v.len() && v[k] == other;
    if v[0].name == pkg.name {
        assert(w[k] == other);
    } else if before(pkg.name, v[0].name) {
        assert(w[k + 1] == other);
    } else if k == 0 {
        assert(w[0] == other);
    } else {
        assert(v.skip(1)[k - 1] == other);
        lemma_others_stay(v.skip(1), pkg, o, other);
        let d = with_merged(v.skip(1), pkg, o);
        let j = choose|j: int| 0 <= j < d.len() && d[j] == other;
        assert(w[j + 1] == other);
    }
}

/// Two packages of one name become one. What is said of it is said by the one that has
/// priority, the first unless the last is asked for, and by the other where that says
/// nothing. It has every tool of both, each once. Of a tool that both have, the definition of
/// the package with priority stays, unless tools are overridden.
pub proof fn law_shared_packages_join(
    p: PackageConfigView,
    q: PackageConfigView,
    o: MergeOptions,
    name: Seq<char>,
)
    requires
        p.name == q.name,
    ensures
        merged_packages(seq![p, q], o).len() == 1,
        ({
            let r = merged_packages(seq![p, q], o)[0];
            let (first, second) = if o.priority_order == Some(PackagePriority::Last) {
                (q, p)
            } else {
                (p, q)
            };
            &&& r.name == p.name
            &&& r.version == (if first.version is Some {
                first.version
            } else {
                second.version
            })
            &&& r.namespace == (if first.namespace is Some {
                first.namespace
            } else {
                second.namespace
            })
            &&& r.description == (if first.description is Some {
                first.description
            } else {
                second.description
            })
            &&& r.dependencies == (if first.dependencies is Some {
                first.dependencies
            } else {
                second.dependencies
            })
            &&& names_differ(r.tools)
            &&& has_tool(r.tools, name) == (has_tool(p.tools, name) || has_tool(q.tools, name))
            &&& o.conflict_strategy != Some(ConflictStrategy::Override) && has_tool(
                first.tools,
                name,
            ) ==> definition(r.tools, name) == definition(first.tools, name)
            &&& o.conflict_strategy == Some(ConflictStrategy::Override) && has_tool(
                second.tools,
                name,
            ) ==> definition(r.tools, name) == last_definition(second.tools, name)
        }),
{
    let v = seq![p, q];
    assert(v.drop_last() =~= seq![p]);
    assert(v.drop_last().drop_last() =~= Seq::<PackageConfigView>::empty());
    let e = Seq::<PackageConfigView>::empty();
    assert(merged_packages(e, o) =~= e);
    assert(merged_packages(seq![p], o) =~= seq![p]);
    assert(seq![p].skip(1) =~= e);
    assert(merged_packages(v, o) =~= seq![merged_package(p, q, o)]);
    let (first, second) = if o.priority_order == Some(PackagePriority::Last) {
        (q, p)
    } else {
        (p, q)
    };
    let overrides = o.conflict_strategy == Some(ConflictStrategy::Override);
    let all = first.tools + second.tools;
    law_one_of_each(all, overrides, name);
    lemma_definition_add(first.tools, second.tools, name);
    lemma_tool_position(first.tools, name);
    lemma_last_definition_add(first.tools, second.tools, name);
    if has_tool(all, name) {
        let k = choose|k: int| 0 <= k < all.len() && (#[trigger] all[k]).name == name;
        if k < first.tools.len() {
            assert(first.tools[k].name == name);
        } else {
            assert(second.tools[k - first.tools.len()].name == name);
        }
    }
    if has_tool(first.tools, name) {
        let k = choose|k: int| 0 <= k < first.tools.len() && (#[trigger] first.tools[k]).name
            == name;
        assert(all[k].name == name);
    }
    if has_tool(second.tools, name) {
        let k = choose|k: int| 0 <= k < second.tools.len() && (#[trigger] second.tools[k]).name
            == name;
        assert(all[first.tools.len() + k].name == name);
    }
}

proof fn lemma_last_definition_add(a: Seq<ToolConfigView>, b: Seq<ToolConfigView>, name: Seq<char>)
    ensures
        has_tool(b, name) ==> last_definition(a + b, name) == last_definition(b, name)
            && last_definition(b, name) is Some,
        !has_tool(b, name) ==> last_definition(a + b, name) == last_definition(a, name),
    decreases b.len(),
{
    if b.len() == 0 {
        assert(a + b =~= a);
    } else {
        assert((a + b).drop_last() =~= a + b.drop_last());
        lemma_last_definition_add(a, b.drop_last(), name);
        if b.last().name == name {
            assert(b[b.len() - 1].name == name);
        } else if has_tool(b, name) {
            let k = choose|k: int| 0 <= k < b.len() && (#[trigger] b[k]).name == name;
            assert(b.drop_last()[k].name == name);
        } else if has_tool(b.drop_last(), name) {
            let k = choose|k: int|
                0 <= k < b.drop_last().len() && (#[trigger] b.drop_last()[k]).name == name;
            assert(b[k].name == name);
        }
    }
}

/// The tools of packages are those that one of them has.
pub proof fn law_tools_of_packages(packages: Seq<PackageConfigView>, t: ToolConfigView)
    ensures
        package_tools(packages).contains(t) == exists|i: int|
            0 <= i < packages.len() && (#[trigger] packages[i]).tools.contains(t),
    decreases packages.len(),
{
    if packages.len() > 0 {
        let rest = packages.drop_last();
        law_tools_of_packages(rest, t);
        lemma_in_sum(package_tools(rest), packages.last().tools, t);
        if package_tools(rest).contains(t) {
            let i = choose|i: int| 0 <= i < rest.len() && (#[trigger] rest[i]).tools.contains(t);
            assert(packages[i].tools.contains(t));
        }
        if packages.last().tools.contains(t) {
            assert(packages[packages.len() - 1].tools.contains(t));
        }
        if exists|i: int| 0 <= i < packages.len() && (#[trigger] packages[i]).tools.contains(t) {
            let i = choose|i: int|
                0 <= i < packages.len() && (#[trigger] packages[i]).tools.contains(t);
            if i < rest.len() {
                assert(rest[i].tools.contains(t));
            }
        }
    }
}

/// A config has this tool, in a package or alone.
pub open spec fn config_has(c: ConfigView, name: Seq<char>) -> bool {
    has_tool(package_tools(c.packages), name) || has_tool(standalone(c), name)
}

proof fn lemma_collected(c: ConfigView, name: Seq<char>)
    ensures
        has_tool(collected(c), name) == config_has(c, name),
        names_differ(collected(c)),
        definition(collected(c), name) == last_definition(
            package_tools(c.packages) + standalone(c),
            name,
        ),
{
    let a = package_tools(c.packages);
    let b = standalone(c);
    law_one_of_each(a + b, true, name);
    if has_tool(a + b, name) {
        let k = choose|k: int| 0 <= k < (a + b).len() && (#[trigger] (a + b)[k]).name == name;
        if k < a.len() {
            assert(a[k].name == name);
        } else {
            assert(b[k - a.len()].name == name);
        }
    }
    if has_tool(a, name) {
        let k = choose|k: int| 0 <= k < a.len() && (#[trigger] a[k]).name == name;
        assert((a + b)[k].name == name);
    }
    if has_tool(b, name) {
        let k = choose|k: int| 0 <= k < b.len() && (#[trigger] b[k]).name == name;
        assert((a + b)[a.len() + k].name == name);
    }
}

/// The tools that a diff calls added are those that only the second config has, and the
/// removed ones those that only the first has.
pub proof fn law_added_and_removed(d: ConfigDiff, a: ConfigView, b: ConfigView, name: Seq<char>)
    requires
        diff_fits(d, a, b),
    ensures
        has_tool(configs_view(d.added@), name) == (config_has(b, name) && !config_has(a, name)),
        has_tool(configs_view(d.removed@), name) == (config_has(a, name) && !config_has(b, name)),
        has_package(packages_view(d.added_packages@), name) == (has_package(b.packages, name)
            && !has_package(a.packages, name)),
        has_package(packages_view(d.removed_packages@), name) == (has_package(a.packages, name)
            && !has_package(b.packages, name)),
{
    lemma_collected(a, name);
    lemma_collected(b, name);
    lemma_beyond(collected(b), collected(a), name);
    lemma_beyond(collected(a), collected(b), name);
    lemma_packages_beyond(a.packages, b.packages, name);
    lemma_packages_beyond(b.packages, a.packages, name);
}

proof fn lemma_beyond(v: Seq<ToolConfigView>, other: Seq<ToolConfigView>, name: Seq<char>)
    ensures
        has_tool(tools_beyond(v, other), name) == (has_tool(v, name) && !has_tool(other, name)),
{
    let p = |t: ToolConfigView| !has_tool(other, t.name);
    let w = v.filter(p);
    if has_tool(w, name) {
        let k = choose|k: int| 0 <= k < w.len() && (#[trigger] w[k]).name == name;
        crate::lists::law_kept(v, p, w[k]);
        assert(w.contains(w[k]));
        let i = choose|i: int| 0 <= i < v.len() && v[i] == w[k];
        assert(v[i].name == name);
    }
    if has_tool(v, name) && !has_tool(other, name) {
        let k = choose|k: int| 0 <= k < v.len() && (#[trigger] v[k]).name == name;
        crate::lists::law_kept(v, p, v[k]);
        assert(v.contains(v[k]));
        let i = choose|i: int| 0 <= i < w.len() && w[i] == v[k];
        assert(w[i].name == name);
    }
}

proof fn lemma_packages_beyond(
    v: Seq<PackageConfigView>,
    other: Seq<PackageConfigView>,
    name: Seq<char>,
)
    ensures
        has_package(packages_beyond(v, other), name) == (has_package(v, name) && !has_package(
            other,
            name,
        )),
{
    let p = |t: PackageConfigView| !has_package(other, t.name);
    let w = v.filter(p);
    if has_package(w, name) {
        let k = choose|k: int| 0 <= k < w.len() && (#[trigger] w[k]).name == name;
        crate::lists::law_kept(v, p, w[k]);
        assert(w.contains(w[k]));
        let i = choose|i: int| 0 <= i < v.len() && v[i] == w[k];
        assert(v[i].name == name);
    }
    if has_package(v, name) && !has_package(other, name) {
        let k = choose|k: int| 0 <= k < v.len() && (#[trigger] v[k]).name == name;
        crate::lists::law_kept(v, p, v[k]);
        assert(v.contains(v[k]));
        let i = choose|i: int| 0 <= i < w.len() && w[i] == v[k];
        assert(w[i].name == name);
    }
}

/// A tool is called modified exactly where both configs have it and what they say of it is
/// not the same JSON. What was said before is what the first config says, and what is said
/// after what the second says.
pub proof fn law_modified(d: ConfigDiff, a: ConfigView, b: ConfigView, m: ModifiedView)
    requires
        diff_fits(d, a, b),
    ensures
        modified_view(d.modified@).contains(m) == {
            &&& last_definition(package_tools(a.packages) + standalone(a), m.name) == Some(m.before)
            &&& last_definition(package_tools(b.packages) + standalone(b), m.name) == Some(m.after)
            &&& !same_json(tool_json(m.before), tool_json(m.after))
            &&& m.changes == field_changes(tool_json(m.before), tool_json(m.after))
        },
{
    let v = collected(b);
    let other = collected(a);
    let f = |t: ToolConfigView| tool_change(t, other);
    crate::lists::law_picked(v, f, m);
    lemma_collected(a, m.name);
    lemma_collected(b, m.name);
    lemma_tool_position(v, m.name);
    lemma_tool_position(other, m.name);
    let at = tool_position(v, m.name);
    if tools_changed(v, other).contains(m) {
        let i = choose|i: int| 0 <= i < v.len() && f(#[trigger] v[i]) == Some(m);
        assert(v[i].name == m.name);
        assert(has_tool(v, m.name));
        if at < i {
            assert(v[at].name != v[i].name);
        } else if i < at {
            assert(v[i].name != m.name);
        }
    }
    if at < v.len() {
        assert(f(v[at]) == tool_change(v[at], other));
    }
}

/// What is told of two objects is told key by key: each key under which they do not hold the
/// same, with the value of the first as the old and the value of the second as the new one.
pub proof fn law_field_changes(
    x: Seq<(Seq<char>, JsonView)>,
    y: Seq<(Seq<char>, JsonView)>,
    c: ChangeView,
)
    requires
        sorted_keys(x),
        sorted_keys(y),
    ensures
        field_changes(JsonView::Object(x), JsonView::Object(y)).contains(c) == {
            &&& crate::json::member_index(x, c.field) is Some || crate::json::member_index(
                y,
                c.field,
            ) is Some
            &&& c.old_value == Some(or_null(field(JsonView::Object(x), c.field)))
            &&& c.new_value == Some(or_null(field(JsonView::Object(y), c.field)))
            &&& !same_json(c.old_value->0, c.new_value->0)
        },
{
    let o = JsonView::Object(x);
    let n = JsonView::Object(y);
    let all = object_of(x + y);
    let f = |e: (Seq<char>, JsonView)| key_change(o, n, e.0);
    crate::lists::law_picked(all, f, c);
    crate::json::law_object_of(x + y, c.field);
    crate::json::lemma_member_index(all, c.field);
    crate::json::lemma_member_index(x, c.field);
    crate::json::lemma_member_index(y, c.field);
    lemma_last_value_is(x + y, c.field);
    if let Some(i) = crate::json::member_index(x, c.field) {
        assert((x + y)[i].0 == c.field);
    }
    if let Some(i) = crate::json::member_index(y, c.field) {
        assert((x + y)[x.len() + i].0 == c.field);
    }
    if exists|i: int| 0 <= i < (x + y).len() && (#[trigger] (x + y)[i]).0 == c.field {
        let i = choose|i: int| 0 <= i < (x + y).len() && (#[trigger] (x + y)[i]).0 == c.field;
        if i < x.len() {
            assert(x[i].0 == c.field);
        } else {
            assert(y[i - x.len()].0 == c.field);
        }
    }
    if let Some(i) = crate::json::member_index(all, c.field) {
        assert(f(all[i]) == key_change(o, n, c.field));
    }
    if exists|i: int| 0 <= i < all.len() && f(#[trigger] all[i]) == Some(c) {
        let i = choose|i: int| 0 <= i < all.len() && f(#[trigger] all[i]) == Some(c);
        assert(all[i].0 == c.field);
        assert(crate::json::member_index(all, c.field) is Some);
    }
}

proof fn lemma_last_value_is(m: Seq<(Seq<char>, JsonView)>, k: Seq<char>)
    ensures
        (crate::json::last_value(m, k) is Some) == exists|i: int|
            0 <= i < m.len() && (#[trigger] m[i]).0 == k,
    decreases m.len(),
{
    if m.len() > 0 {
        let t = m.drop_last();
        lemma_last_value_is(t, k);
        if exists|i: int| 0 <= i < m.len() && (#[trigger] m[i]).0 == k {
            let i = choose|i: int| 0 <= i < m.len() && (#[trigger] m[i]).0 == k;
            if i < t.len() {
                assert(t[i].0 == k);
            }
        }
        if exists|i: int| 0 <= i < t.len() && (#[trigger] t[i]).0 == k {
            let i = choose|i: int| 0 <= i < t.len() && (#[trigger] t[i]).0 == k;
            assert(m[i].0 == k);
        }
        assert(m[m.len() - 1] == m.last());
    }
}

/// A config is called identical exactly where no tool was added, removed or modified.
pub proof fn law_identical(d: ConfigDiff, a: ConfigView, b: ConfigView)
    requires
        diff_fits(d, a, b),
    ensures
        d.identical ==> forall|name: Seq<char>| #[trigger]
            config_has(a, name) == config_has(b, name),
        d.identical == (configs_view(d.added@).len() == 0 && configs_view(d.removed@).len() == 0
            && modified_view(d.modified@).len() == 0),
        a.config == b.config && b.config is None ==> d.config_changes is None,
        (a.config is Some || b.config is Some) ==> d.config_changes is Some,
{
    if d.identical {
        assert forall|name: Seq<char>| #[trigger] config_has(a, name) == config_has(b, name) by {
            law_added_and_removed(d, a, b, name);
        }
    }
}

/// A scope keeps the settings and the version of a config, and of a package all but its tools.
pub proof fn law_scope_keeps_the_rest(c: ConfigView, p: PackageConfigView, names: Seq<Seq<char>>)
    ensures
        scoped_config(c, names).config == c.config,
        scoped_config(c, names).version == c.version,
        (scoped_config(c, names).standalone_tools is Some) == (c.standalone_tools is Some),
        scoped_package(p, names) matches Some(q) ==> q.version == p.version && q.namespace
            == p.namespace && q.description == p.description && q.dependencies == p.dependencies,
{
}

/// Settings that only one of two configs has are told as one change, from what was there to what
/// is.
pub proof fn law_settings_come_and_go(d: ConfigDiff, a: ConfigView, b: ConfigView)
    requires
        diff_fits(d, a, b),
    ensures
        a.config is None && b.config is Some ==> (d.config_changes matches Some(v) && v@.len() == 1
            && changes_view(v@)[0].field == "config"@ && changes_view(v@)[0].old_value is None
            && changes_view(v@)[0].new_value == Some(settings_json(b.config->0))),
        a.config is Some && b.config is None ==> (d.config_changes matches Some(v) && v@.len() == 1
            && changes_view(v@)[0].field == "config"@ && changes_view(v@)[0].new_value is None
            && changes_view(v@)[0].old_value == Some(settings_json(a.config->0))),
        a.config is Some && b.config is Some ==> (d.config_changes matches Some(v) && changes_view(
            v@,
        ) == field_changes(settings_json(a.config->0), settings_json(b.config->0))),
{
    if a.config is Some != b.config is Some {
        let v = d.config_changes->0;
        assert(changes_view(v@).len() == v@.len());
    }
}

} // verus!
