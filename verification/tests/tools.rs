use depup::discovery::{ArtifactMapping, DiscoveryResult, VersionProperty};
use depup::model::{DependencyKind, Ecosystem, VersionStatus};
use depup::pom::ArtifactKind;
use depup::tools::{
    node_patterns, node_versions, prepare_tasks, tool_id, LtsField, NodeRelease, NodeResolver, PmVersionsResolver,
    ResolveTask, ToolResolver, ToolResolverRegistry, ToolVersionResolver,
};

fn prop(name: &str, value: &str) -> VersionProperty {
    VersionProperty { name: name.to_string(), current_value: value.to_string(), source: "pom.xml".into() }
}

#[test]
fn patterns_match_node() {
    let resolver = NodeResolver::new(false);
    let patterns = resolver.patterns();
    assert!(patterns.contains(&"version.node"));
    assert!(patterns.contains(&"version.nodejs"));
    assert!(patterns.contains(&"node.version"));
    assert!(patterns.contains(&"nodejs.version"));
}

#[test]
fn tool_id_returns_correct_dependency() {
    let dep = tool_id("pom.xml");
    assert_eq!(dep.ecosystem, Ecosystem::Maven);
    assert_eq!(dep.kind, DependencyKind::Tool);
    assert_eq!(dep.artifact, "nodejs.org");
    assert!(dep.property.is_none());
    assert_eq!(dep.source, "pom.xml");
}

#[test]
fn node_patterns_contains_all_expected() {
    let patterns = node_patterns();
    assert_eq!(patterns.len(), 4);
    assert!(patterns.contains(&"version.node"));
    assert!(patterns.contains(&"version.nodejs"));
    assert!(patterns.contains(&"node.version"));
    assert!(patterns.contains(&"nodejs.version"));
}

#[test]
fn label_returns_nodejs_org() {
    let resolver = NodeResolver::new(false);
    assert_eq!(resolver.label(&prop("version.node", "20.0.0")), "nodejs.org");
}

#[test]
fn lts_codename_is_lts_and_booleans_are_not() {
    assert!(LtsField::Name("Jod".into()).is_lts());
    assert!(!LtsField::False(false).is_lts());
    assert!(!LtsField::False(true).is_lts());
}

fn releases() -> Vec<NodeRelease> {
    vec![
        NodeRelease { version: "v23.1.0".into(), lts: LtsField::False(false) },
        NodeRelease { version: "v22.11.0".into(), lts: LtsField::Name("Jod".into()) },
        NodeRelease { version: "v20.18.0".into(), lts: LtsField::Name("Iron".into()) },
    ]
}

#[test]
fn node_versions_strip_v_and_keep_lts_when_stable() {
    assert_eq!(node_versions(&releases(), false), vec!["23.1.0", "22.11.0", "20.18.0"]);
    assert_eq!(node_versions(&releases(), true), vec!["22.11.0", "20.18.0"]);
}

#[test]
fn node_check_releases_outcomes() {
    let r = NodeResolver::new(true).check_releases("v20.0.0", "pom.xml", &releases());
    assert!(r.is_outdated());
    assert_eq!(r.latest_version(), Some("22.11.0"));
    assert_eq!(r.current_version, "v20.0.0");
    let r = NodeResolver::new(false).check_releases("23.1.0", "pom.xml", &releases());
    assert!(matches!(r.status, VersionStatus::UpToDate { .. }));
    let r = NodeResolver::new(false).check_releases("20.0.0", "pom.xml", &Vec::new());
    assert_eq!(r.error_message(), Some("No Node.js versions found"));
}

#[test]
fn patterns_match_pm_tools() {
    let resolver = PmVersionsResolver::new();
    let patterns = resolver.patterns();
    assert!(patterns.contains(&"version.npm"));
    assert!(patterns.contains(&"npm.version"));
    assert!(patterns.contains(&"version.pnpm"));
    assert!(patterns.contains(&"pnpm.version"));
    assert!(patterns.contains(&"version.yarn"));
    assert!(patterns.contains(&"yarn.version"));
}

#[test]
fn resolve_package_names() {
    assert_eq!(PmVersionsResolver::resolve_package("version.npm"), Some("npm"));
    assert_eq!(PmVersionsResolver::resolve_package("npm.version"), Some("npm"));
    assert_eq!(PmVersionsResolver::resolve_package("version.pnpm"), Some("pnpm"));
    assert_eq!(PmVersionsResolver::resolve_package("pnpm.version"), Some("pnpm"));
    assert_eq!(PmVersionsResolver::resolve_package("version.yarn"), Some("yarn"));
    assert_eq!(PmVersionsResolver::resolve_package("yarn.version"), Some("yarn"));
}

#[test]
fn pm_versions_does_not_match_unrelated() {
    assert_eq!(PmVersionsResolver::resolve_package("version.junit"), None);
    assert_eq!(PmVersionsResolver::resolve_package("npm"), None);
    assert_eq!(PmVersionsResolver::resolve_package("version.node"), None);
}

#[test]
fn label_resolves_from_property() {
    let resolver = PmVersionsResolver::new();
    assert_eq!(resolver.label(&prop("version.pnpm", "9.0.0")), "pnpm");
}

#[test]
fn label_returns_unknown_for_unrecognized_property() {
    let resolver = PmVersionsResolver::new();
    assert_eq!(resolver.label(&prop("version.unknown-tool", "1.0.0")), "unknown");
}

#[test]
fn resolve_package_returns_none_for_node() {
    assert_eq!(PmVersionsResolver::resolve_package("version.node"), None);
}

#[test]
fn pm_check_latest_outcomes() {
    let r = PmVersionsResolver::new().check_latest(&prop("version.pnpm", "9.0.0"), "pom.xml", Some("10.0.0".into()));
    assert!(r.is_outdated());
    assert_eq!(r.dep.artifact, "pnpm");
    let r = PmVersionsResolver::new().check_latest(&prop("version.pnpm", "9.0.0"), "pom.xml", None);
    assert_eq!(r.error_message(), Some("No latest version found for pnpm"));
    let r = PmVersionsResolver::new().check_latest(&prop("version.x", "1"), "pom.xml", None);
    assert_eq!(r.error_message(), Some("Unknown tool property: version.x"));
}

#[test]
fn find_node_resolver() {
    let registry = ToolResolverRegistry::new(false);
    let resolver = registry.find("version.node");
    assert!(resolver.is_some());
    assert!(resolver.unwrap().patterns().contains(&"version.node"));
}

#[test]
fn find_pm_resolver_for_npm() {
    let registry = ToolResolverRegistry::new(false);
    let resolver = registry.find("version.npm");
    assert!(resolver.is_some());
    assert!(resolver.unwrap().patterns().contains(&"version.npm"));
}

#[test]
fn find_returns_none_for_non_tool_property() {
    let registry = ToolResolverRegistry::new(false);
    assert!(registry.find("version.junit").is_none());
}

#[test]
fn find_returns_none_for_random_property() {
    let registry = ToolResolverRegistry::new(false);
    assert!(registry.find("random.property").is_none());
}

fn mapping(name: &str, group: &str, artifact: &str, kind: ArtifactKind) -> ArtifactMapping {
    ArtifactMapping {
        property: prop(name, "1.0.0"),
        group_id: group.into(),
        artifact_id: artifact.into(),
        kind,
        has_version_property: true,
    }
}

fn multi_module_discovery() -> DiscoveryResult {
    DiscoveryResult {
        mappings: vec![
            mapping("version.junit", "org.junit.jupiter", "junit-jupiter", ArtifactKind::Dependency),
            mapping("version.compiler.plugin", "org.apache.maven.plugins", "maven-compiler-plugin", ArtifactKind::Plugin),
        ],
        orphan_properties: vec![prop("version.node", "20.0.0"), prop("version.other", "1")],
        repositories: Vec::new(),
    }
}

#[test]
fn discover_multi_module_fixture_has_tasks() {
    let prepared = prepare_tasks(multi_module_discovery(), false);
    assert!(prepared.count() >= 2);
    assert_eq!(prepared.count(), 3);
}

#[test]
fn discover_labels_contain_maven_coordinates() {
    let prepared = prepare_tasks(multi_module_discovery(), false);
    let labels: Vec<String> = prepared.tasks.iter().map(|t| t.label()).collect();
    assert!(labels.iter().any(|l| l.contains("junit-jupiter")));
    assert!(labels.iter().any(|l| l.contains("maven-compiler-plugin")));
    assert_eq!(labels[0], "org.junit.jupiter:junit-jupiter");
    assert_eq!(labels[2], "nodejs.org");
}

#[test]
fn resolve_task_error_id_for_tool() {
    let task = ResolveTask::Tool { property: prop("version.node", "20.0.0"), resolver: ToolResolver::Node(NodeResolver::new(false)) };
    let (id, current) = task.error_id("/tmp");
    assert_eq!(id.kind, DependencyKind::Tool);
    assert_eq!(id.artifact, "version.node");
    assert_eq!(current, "20.0.0");
}
