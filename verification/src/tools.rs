//! Tool versions in POM properties: Node.js and the package managers.
//!
//! Properties that no artifact uses may name tool versions (`version.node`,
//! `pnpm.version`, ...). A [`ToolResolverRegistry`] finds the resolver whose
//! patterns contain a property's name. Fetching the registries' data is left to
//! the caller; the decisions on what came back are functions here.

use vstd::prelude::*;

use crate::discovery::{ArtifactMapping, DiscoveryResult, VersionProperty};
use crate::model::{Dependency, DependencyKind, Ecosystem, VersionResult, VersionStatus};
use crate::pom::strings_view;
use crate::text::str_eq;

verus! {

// ---------------------------------------------------------------------------
// Node.js
// ---------------------------------------------------------------------------

/// The property names that Node.js resolution handles.
pub open spec fn spec_node_patterns() -> Seq<Seq<char>> {
    seq!["version.node"@, "version.nodejs"@, "node.version"@, "nodejs.version"@]
}

/// The property names that Node.js resolution handles.
pub fn node_patterns() -> (v: Vec<&'static str>)
    ensures
        v@.map_values(|s: &str| s@) == spec_node_patterns(),
{
    let v = vec!["version.node", "version.nodejs", "node.version", "nodejs.version"];
    assert(v@.map_values(|s: &str| s@) =~= spec_node_patterns());
    v
}

/// The `lts` field of a Node.js release: an LTS codename, or `false` (or
/// another boolean) for a release outside LTS.
#[derive(Debug, Clone)]
pub enum LtsField {
    Name(String),
    False(bool),
}

impl LtsField {
    /// The release is an LTS release: its `lts` field is a codename.
    pub fn is_lts(&self) -> (b: bool)
        ensures
            b == self is Name,
    {
        match self {
            LtsField::Name(_) => true,
            LtsField::False(_) => false,
        }
    }
}

/// One entry of the Node.js distribution index.
#[derive(Debug, Clone)]
pub struct NodeRelease {
    pub version: String,
    pub lts: LtsField,
}

/// `s` without one leading `v`.
pub open spec fn strip_v(s: Seq<char>) -> Seq<char> {
    if s.len() > 0 && s[0] == 'v' {
        s.drop_first()
    } else {
        s
    }
}

fn strip_v_exec(s: &str) -> (r: String)
    ensures
        r@ == strip_v(s@),
{
    let v = crate::text::chars_of(s);
    if v.len() > 0 && v[0] == 'v' {
        crate::text::string_from_range(&v, 1, v.len())
    } else {
        assert(v@.subrange(0, v@.len() as int) =~= v@);
        crate::text::string_from_range(&v, 0, v.len())
    }
}

/// The versions of the releases, without their leading `v`; only LTS releases
/// where `releases_only` is set.
pub open spec fn spec_node_versions(releases: Seq<NodeRelease>, releases_only: bool) -> Seq<Seq<char>>
    decreases releases.len(),
{
    if releases.len() == 0 {
        Seq::empty()
    } else {
        let rest = spec_node_versions(releases.drop_last(), releases_only);
        let r = releases.last();
        if !releases_only || r.lts is Name {
            rest.push(strip_v(r.version@))
        } else {
            rest
        }
    }
}

/// The versions of the releases, without their leading `v`; only LTS releases
/// where `releases_only` is set.
pub fn node_versions(releases: &Vec<NodeRelease>, releases_only: bool) -> (r: Vec<String>)
    ensures
        strings_view(r@) == spec_node_versions(releases@, releases_only),
{
    let ghost rs = releases@;
    let mut out: Vec<String> = Vec::new();
    let mut i: usize = 0;
    assert(rs.subrange(0, 0) =~= Seq::<NodeRelease>::empty());
    assert(strings_view(out@) =~= spec_node_versions(rs.subrange(0, 0), releases_only));
    while i < releases.len()
        invariant
            rs == releases@,
            i <= rs.len(),
            strings_view(out@) == spec_node_versions(rs.subrange(0, i as int), releases_only),
        decreases rs.len() - i,
    {
        assert(rs.subrange(0, i as int + 1).drop_last() =~= rs.subrange(0, i as int));
        assert(rs.subrange(0, i as int + 1).last() == rs[i as int]);
        if !releases_only || releases[i].lts.is_lts() {
            let ghost before = strings_view(out@);
            let v = strip_v_exec(releases[i].version.as_str());
            out.push(v);
            assert(strings_view(out@) =~= before.push(strip_v(rs[i as int].version@)));
        }
        i = i + 1;
    }
    assert(rs.subrange(0, rs.len() as int) =~= rs);
    out
}

/// The dependency that stands for the Node.js version in a POM.
pub fn tool_id(source: &str) -> (d: Dependency)
    ensures
        d.ecosystem == Ecosystem::Maven,
        d.kind == DependencyKind::Tool,
        d.artifact@ == "nodejs.org"@,
        d.property is None,
        d.source@ == source@,
{
    Dependency::new(Ecosystem::Maven, DependencyKind::Tool, String::from_str("nodejs.org"), None, String::from_str(source))
}

/// Resolves Node.js version properties against the Node.js distribution index.
#[derive(Debug, Clone)]
pub struct NodeResolver {
    pub releases_only: bool,
}

impl NodeResolver {
    pub fn new(stable: bool) -> (r: Self)
        ensures
            r.releases_only == stable,
    {
        NodeResolver { releases_only: stable }
    }

    /// The result for a Node.js property with current value `current`, given the
    /// releases of the distribution index.
    ///
    /// No versions, or none that parses, is an error; otherwise the latest is
    /// compared with the current version without its leading `v`.
    pub fn check_releases(&self, current: &str, source: &str, releases: &Vec<NodeRelease>) -> (r: VersionResult)
        ensures
            r.dep.artifact@ == "nodejs.org"@,
            r.dep.kind == DependencyKind::Tool,
            r.dep.source@ == source@,
            r.current_version@ == current@,
            ({
                let versions = spec_node_versions(releases@, self.releases_only);
                if versions.len() == 0 {
                    (r.status matches VersionStatus::Error { message } && message@ == "No Node.js versions found"@)
                } else {
                    match crate::version::spec_find_latest(versions) {
                        None => (r.status matches VersionStatus::Error { message } && message@
                            == "Could not determine latest Node.js version"@),
                        Some(l) => r.spec_latest() == Some(l) && (r.status is Outdated
                            <==> crate::version::spec_is_newer(strip_v(current@), l)) && (r.status is Outdated
                            || r.status is UpToDate),
                    }
                }
            }),
    {
        let id = tool_id(source);
        let versions = node_versions(releases, self.releases_only);
        if versions.len() == 0 {
            return VersionResult::error(id, String::from_str(current), String::from_str("No Node.js versions found"));
        }
        match crate::version::find_latest(&versions) {
            None => VersionResult::error(
                id,
                String::from_str(current),
                String::from_str("Could not determine latest Node.js version"),
            ),
            Some(latest) => {
                let normalized = strip_v_exec(current);
                let outdated = crate::version::is_newer(normalized.as_str(), latest.as_str());
                VersionResult::checked(id, String::from_str(current), latest, outdated)
            },
        }
    }
}

// ---------------------------------------------------------------------------
// Package managers
// ---------------------------------------------------------------------------

/// The package behind a package-manager property name.
pub open spec fn spec_resolve_package(name: Seq<char>) -> Option<Seq<char>> {
    if name == "version.npm"@ || name == "npm.version"@ {
        Some("npm"@)
    } else if name == "version.pnpm"@ || name == "pnpm.version"@ {
        Some("pnpm"@)
    } else if name == "version.yarn"@ || name == "yarn.version"@ {
        Some("yarn"@)
    } else {
        None
    }
}

/// The property names that package-manager resolution handles.
pub open spec fn spec_pm_patterns() -> Seq<Seq<char>> {
    seq!["version.npm"@, "npm.version"@, "version.pnpm"@, "pnpm.version"@, "version.yarn"@, "yarn.version"@]
}

/// Resolves package manager version properties against the npm registry.
#[derive(Debug, Clone)]
pub struct PmVersionsResolver;

impl PmVersionsResolver {
    pub fn new() -> (r: Self)
        ensures
            r == PmVersionsResolver,
    {
        PmVersionsResolver
    }

    /// The property names this resolver handles.
    pub fn pm_patterns() -> (v: Vec<&'static str>)
        ensures
            v@.map_values(|s: &str| s@) == spec_pm_patterns(),
    {
        let v = vec!["version.npm", "npm.version", "version.pnpm", "pnpm.version", "version.yarn", "yarn.version"];
        assert(v@.map_values(|s: &str| s@) =~= spec_pm_patterns());
        v
    }

    /// Maps a property name to its npm package (`version.pnpm` → `pnpm`).
    pub fn resolve_package(property_name: &str) -> (r: Option<&'static str>)
        ensures
            match r {
                Some(p) => spec_resolve_package(property_name@) == Some(p@),
                None => spec_resolve_package(property_name@) is None,
            },
    {
        if str_eq(property_name, "version.npm") || str_eq(property_name, "npm.version") {
            Some("npm")
        } else if str_eq(property_name, "version.pnpm") || str_eq(property_name, "pnpm.version") {
            Some("pnpm")
        } else if str_eq(property_name, "version.yarn") || str_eq(property_name, "yarn.version") {
            Some("yarn")
        } else {
            None
        }
    }

    /// The result for a package-manager property, given the `dist-tags.latest`
    /// version the registry lists for its package (where it lists one).
    ///
    /// An unknown property is an error naming it; a package without a latest
    /// version is an error naming the package; otherwise the latest is compared
    /// with the current version.
    pub fn check_latest(&self, property: &VersionProperty, source: &str, latest: Option<String>) -> (r: VersionResult)
        ensures
            r.dep.ecosystem == Ecosystem::Maven,
            r.dep.kind == DependencyKind::Tool,
            r.dep.source@ == source@,
            r.current_version@ == property.current_value@,
            match spec_resolve_package(property.name@) {
                None => r.dep.artifact@ == property.name@ && (r.status matches VersionStatus::Error { message }
                    && message@ == "Unknown tool property: "@ + property.name@),
                Some(p) => r.dep.artifact@ == p && match latest {
                    None => (r.status matches VersionStatus::Error { message } && message@ == "No latest version found for "@ + p),
                    Some(l) => r.spec_latest() == Some(l@) && (r.status is Outdated <==> crate::version::spec_is_newer(
                        property.current_value@,
                        l@,
                    )) && (r.status is Outdated || r.status is UpToDate),
                },
            },
    {
        let current = property.current_value.clone();
        match Self::resolve_package(property.name.as_str()) {
            None => {
                let id = Dependency::new(
                    Ecosystem::Maven,
                    DependencyKind::Tool,
                    property.name.clone(),
                    None,
                    String::from_str(source),
                );
                let mut message = String::from_str("Unknown tool property: ");
                message.append(property.name.as_str());
                VersionResult::error(id, current, message)
            },
            Some(package) => {
                let id = Dependency::new(
                    Ecosystem::Maven,
                    DependencyKind::Tool,
                    String::from_str(package),
                    None,
                    String::from_str(source),
                );
                match latest {
                    Some(l) => {
                        let outdated = crate::version::is_newer(current.as_str(), l.as_str());
                        VersionResult::checked(id, current, l, outdated)
                    },
                    None => {
                        let mut message = String::from_str("No latest version found for ");
                        message.append(package);
                        VersionResult::error(id, current, message)
                    },
                }
            },
        }
    }
}

// ---------------------------------------------------------------------------
// The registry of tool resolvers
// ---------------------------------------------------------------------------

/// A resolver of tool version properties.
#[derive(Debug, Clone)]
pub enum ToolResolver {
    Node(NodeResolver),
    PackageManager(PmVersionsResolver),
}

/// The patterns of a resolver.
pub open spec fn spec_patterns(r: ToolResolver) -> Seq<Seq<char>> {
    match r {
        ToolResolver::Node(_) => spec_node_patterns(),
        ToolResolver::PackageManager(_) => spec_pm_patterns(),
    }
}

/// The progress label of a resolver for a property.
pub open spec fn spec_label(r: ToolResolver, property_name: Seq<char>) -> Seq<char> {
    match r {
        ToolResolver::Node(_) => "nodejs.org"@,
        ToolResolver::PackageManager(_) => match spec_resolve_package(property_name) {
            Some(p) => p,
            None => "unknown"@,
        },
    }
}

/// What every tool resolver offers besides its registry lookup.
pub trait ToolVersionResolver {
    /// The property names the resolver handles.
    fn patterns(&self) -> Vec<&'static str>;

    /// A display label for progress reporting.
    fn label(&self, property: &VersionProperty) -> String;
}

impl ToolVersionResolver for NodeResolver {
    fn patterns(&self) -> (v: Vec<&'static str>)
        ensures
            v@.map_values(|s: &str| s@) == spec_node_patterns(),
    {
        node_patterns()
    }

    fn label(&self, property: &VersionProperty) -> (s: String)
        ensures
            s@ == "nodejs.org"@,
    {
        String::from_str("nodejs.org")
    }
}

impl ToolVersionResolver for PmVersionsResolver {
    fn patterns(&self) -> (v: Vec<&'static str>)
        ensures
            v@.map_values(|s: &str| s@) == spec_pm_patterns(),
    {
        PmVersionsResolver::pm_patterns()
    }

    fn label(&self, property: &VersionProperty) -> (s: String)
        ensures
            s@ == spec_label(ToolResolver::PackageManager(*self), property.name@),
    {
        match PmVersionsResolver::resolve_package(property.name.as_str()) {
            Some(p) => String::from_str(p),
            None => String::from_str("unknown"),
        }
    }
}

impl ToolVersionResolver for ToolResolver {
    fn patterns(&self) -> (v: Vec<&'static str>)
        ensures
            v@.map_values(|s: &str| s@) == spec_patterns(*self),
    {
        match self {
            ToolResolver::Node(n) => n.patterns(),
            ToolResolver::PackageManager(p) => p.patterns(),
        }
    }

    fn label(&self, property: &VersionProperty) -> (s: String)
        ensures
            s@ == spec_label(*self, property.name@),
    {
        match self {
            ToolResolver::Node(n) => n.label(property),
            ToolResolver::PackageManager(p) => p.label(property),
        }
    }
}

/// All tool resolvers, in the order they are tried.
#[derive(Debug)]
pub struct ToolResolverRegistry {
    pub resolvers: Vec<ToolResolver>,
}

/// The first resolver whose patterns contain `name`.
pub open spec fn spec_find(resolvers: Seq<ToolResolver>, name: Seq<char>) -> Option<ToolResolver>
    decreases resolvers.len(),
{
    if resolvers.len() == 0 {
        None
    } else if spec_patterns(resolvers[0]).contains(name) {
        Some(resolvers[0])
    } else {
        spec_find(resolvers.drop_first(), name)
    }
}

fn contains_name(patterns: &Vec<&'static str>, name: &str) -> (b: bool)
    ensures
        b == patterns@.map_values(|s: &str| s@).contains(name@),
{
    let ghost ps = patterns@.map_values(|s: &str| s@);
    let mut i: usize = 0;
    while i < patterns.len()
        invariant
            ps == patterns@.map_values(|s: &str| s@),
            i <= patterns@.len(),
            forall|j: int| 0 <= j < i ==> ps[j] != name@,
        decreases patterns@.len() - i,
    {
        assert(ps[i as int] == patterns@[i as int]@);
        if str_eq(patterns[i], name) {
            return true;
        }
        i = i + 1;
    }
    false
}

impl ToolResolverRegistry {
    /// The Node.js resolver (LTS releases only where `stable` is set), then the
    /// package-manager resolver.
    pub fn new(stable: bool) -> (r: Self)
        ensures
            r.resolvers@ == registry_resolvers(stable),
    {
        let resolvers = vec![ToolResolver::Node(NodeResolver::new(stable)), ToolResolver::PackageManager(PmVersionsResolver::new())];
        ToolResolverRegistry { resolvers }
    }

    /// The first resolver whose patterns include the property name.
    pub fn find(&self, property_name: &str) -> (r: Option<&ToolResolver>)
        ensures
            match r {
                Some(t) => spec_find(self.resolvers@, property_name@) == Some(*t),
                None => spec_find(self.resolvers@, property_name@) is None,
            },
    {
        let ghost rs = self.resolvers@;
        let mut i: usize = 0;
        assert(rs.skip(0) =~= rs);
        while i < self.resolvers.len()
            invariant
                rs == self.resolvers@,
                i <= rs.len(),
                spec_find(rs, property_name@) == spec_find(rs.skip(i as int), property_name@),
            decreases rs.len() - i,
        {
            assert(rs.skip(i as int)[0] == rs[i as int]);
            assert(rs.skip(i as int).drop_first() =~= rs.skip(i as int + 1));
            let patterns = self.resolvers[i].patterns();
            if contains_name(&patterns, property_name) {
                return Some(&self.resolvers[i]);
            }
            i = i + 1;
        }
        None
    }
}

// ---------------------------------------------------------------------------
// Resolve tasks
// ---------------------------------------------------------------------------

/// A single unit of resolution work: a Maven artifact, or a tool version.
#[derive(Debug)]
pub enum ResolveTask {
    Maven { mapping: ArtifactMapping },
    Tool { property: VersionProperty, resolver: ToolResolver },
}

impl ResolveTask {
    /// The progress label: the coordinates of an artifact, the resolver's label
    /// of a tool property.
    pub fn label(&self) -> (s: String)
        ensures
            match self {
                ResolveTask::Maven { mapping } => s@ == crate::discovery::coordinates(mapping.group_id@, mapping.artifact_id@),
                ResolveTask::Tool { property, resolver } => s@ == spec_label(*resolver, property.name@),
            },
    {
        match self {
            ResolveTask::Maven { mapping } => crate::discovery::concat3(mapping.group_id.as_str(), ":", mapping.artifact_id.as_str()),
            ResolveTask::Tool { property, resolver } => resolver.label(property),
        }
    }

    /// The dependency and current version an error result of the task carries;
    /// `source` is where a Maven artifact was found.
    pub fn error_id(&self, source: &str) -> (r: (Dependency, String))
        ensures
            match self {
                ResolveTask::Maven { mapping } => crate::maven::identifies(r.0, mapping@, source@)
                    && r.1@ == mapping.property.current_value@,
                ResolveTask::Tool { property, .. } => r.0.ecosystem == Ecosystem::Maven
                    && r.0.kind == DependencyKind::Tool && r.0.artifact@ == property.name@
                    && r.0.property is None && r.0.source@ == "pom.xml"@ && r.1@ == property.current_value@,
            },
    {
        match self {
            ResolveTask::Maven { mapping } => (
                crate::maven::dependency_from_mapping(mapping, source),
                mapping.property.current_value.clone(),
            ),
            ResolveTask::Tool { property, .. } => (
                Dependency::new(
                    Ecosystem::Maven,
                    DependencyKind::Tool,
                    property.name.clone(),
                    None,
                    String::from_str("pom.xml"),
                ),
                property.current_value.clone(),
            ),
        }
    }
}

/// The tasks of a discovery: one per mapping, in order, then one per orphan
/// property that a tool resolver handles.
pub struct PreparedResolves {
    pub tasks: Vec<ResolveTask>,
}

impl PreparedResolves {
    /// The number of tasks.
    pub fn count(&self) -> (n: usize)
        ensures
            n == self.tasks@.len(),
    {
        self.tasks.len()
    }
}

/// The resolvers of [`ToolResolverRegistry::new`].
pub open spec fn registry_resolvers(stable: bool) -> Seq<ToolResolver> {
    seq![ToolResolver::Node(NodeResolver { releases_only: stable }), ToolResolver::PackageManager(PmVersionsResolver)]
}

/// `t` is the task of the mapping `m`.
pub open spec fn is_task_for(t: ResolveTask, m: crate::discovery::MappingView) -> bool {
    t matches ResolveTask::Maven { mapping } && mapping@ == m
}

/// The number of orphan properties among `props` that some resolver handles.
pub open spec fn tool_task_count(resolvers: Seq<ToolResolver>, props: Seq<VersionProperty>) -> nat
    decreases props.len(),
{
    if props.len() == 0 {
        0
    } else {
        tool_task_count(resolvers, props.drop_last()) + if spec_find(resolvers, props.last().name@) is Some {
            1nat
        } else {
            0nat
        }
    }
}

/// Builds the resolve tasks of a discovery: the mappings, in order, then the
/// orphan properties that the tool resolvers (LTS-only Node.js where `stable`
/// is set) handle.
pub fn prepare_tasks(discovery: DiscoveryResult, stable: bool) -> (r: PreparedResolves)
    ensures
        r.tasks@.len() == discovery.mappings@.len() + tool_task_count(
            registry_resolvers(stable),
            discovery.orphan_properties@,
        ),
        forall|i: int| 0 <= i < discovery.mappings@.len() ==> is_task_for(#[trigger] r.tasks@[i], discovery.mappings@[i]@),
{
    let registry = ToolResolverRegistry::new(stable);
    let ghost rs = registry.resolvers@;
    let DiscoveryResult { mappings, orphan_properties, repositories: _ } = discovery;
    let ghost ms = mappings@;
    let ghost ps = orphan_properties@;
    let mut tasks: Vec<ResolveTask> = Vec::new();
    let mut mappings = crate::text::reverse_vec(mappings);
    while mappings.len() > 0
        invariant
            mappings@.len() + tasks@.len() == ms.len(),
            forall|k: int| 0 <= k < mappings@.len() ==> #[trigger] mappings@[k] == ms[ms.len() - 1 - k],
            forall|i: int| 0 <= i < tasks@.len() ==> is_task_for(#[trigger] tasks@[i], ms[i]@),
        decreases mappings@.len(),
    {
        let ghost before = mappings@;
        let m = mappings.pop().unwrap();
        assert(m == ms[tasks@.len() as int]);
        tasks.push(ResolveTask::Maven { mapping: m });
        assert forall|k: int| 0 <= k < mappings@.len() implies #[trigger] mappings@[k] == ms[ms.len() - 1 - k] by {
            assert(mappings@[k] == before[k]);
        }
    }
    let ghost n_maven = tasks@.len();
    let mut props = crate::text::reverse_vec(orphan_properties);
    let ghost mut done: int = 0;
    while props.len() > 0
        invariant
            rs == registry.resolvers@,
            n_maven == ms.len(),
            0 <= done <= ps.len(),
            props@.len() == ps.len() - done,
            forall|k: int| 0 <= k < props@.len() ==> #[trigger] props@[k] == ps[ps.len() - 1 - k],
            tasks@.len() == n_maven + tool_task_count(rs, ps.subrange(0, done)),
            forall|i: int| 0 <= i < ms.len() ==> is_task_for(#[trigger] tasks@[i], ms[i]@),
        decreases props@.len(),
    {
        let ghost before = props@;
        let ghost before_tasks = tasks@;
        let p = props.pop().unwrap();
        assert(p == ps[done]);
        assert(ps.subrange(0, done + 1).drop_last() =~= ps.subrange(0, done));
        assert(ps.subrange(0, done + 1).last() == p);
        match registry.find(p.name.as_str()) {
            Some(resolver) => {
                let resolver = resolver.clone();
                tasks.push(ResolveTask::Tool { property: p, resolver });
                assert forall|i: int| 0 <= i < ms.len() implies is_task_for(#[trigger] tasks@[i], ms[i]@) by {
                    assert(tasks@[i] == before_tasks[i]);
                }
            },
            None => {},
        }
        assert forall|k: int| 0 <= k < props@.len() implies #[trigger] props@[k] == ps[ps.len() - 1 - k] by {
            assert(props@[k] == before[k]);
        }
        proof {
            done = done + 1;
        }
    }
    assert(ps.subrange(0, ps.len() as int) =~= ps);
    PreparedResolves { tasks }
}

} // verus!
