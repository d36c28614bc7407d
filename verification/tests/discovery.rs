use depup::discovery::{
    deduplicate, deduplicate_repos, discover, extract_mappings, extract_property_reference,
    inject_project_properties, inject_project_properties_with_fallback, resolve_value, ArtifactMapping,
    VersionProperty,
};
use depup::pom::{Artifact, ArtifactKind, Project, Repository, RepositoryKind};
use depup::props::PropertyMap;

fn extract_ref() {
    assert_eq!(extract_property_reference("${version.wildfly}"), Some("version.wildfly".to_string()));
    assert_eq!(extract_property_reference("1.0.0"), None);
    assert_eq!(extract_property_reference("${incomplete"), None);
    assert_eq!(extract_property_reference(""), None);
    assert_eq!(extract_property_reference("${}"), None);
}

fn extract_ref_ws() {
    assert_eq!(extract_property_reference("  ${version.junit}  "), Some("version.junit".to_string()));
}

fn resolve_plain() {
    let props = PropertyMap::new();
    assert_eq!(resolve_value("org.example", &props), "org.example");
}

fn resolve_prop() {
    let mut props = PropertyMap::new();
    props.insert("project.groupId".to_string(), "org.example".to_string());
    assert_eq!(resolve_value("${project.groupId}", &props), "org.example");
}

fn resolve_missing() {
    let props = PropertyMap::new();
    assert_eq!(resolve_value("${missing.prop}", &props), "${missing.prop}");
}

fn repo(id: &str, url: &str, kind: RepositoryKind) -> Repository {
    Repository { id: Some(id.into()), name: None, url: url.into(), kind }
}

fn dedup_repos() {
    let mut repos = vec![
        repo("r1", "https://repo.example.com/maven2/", RepositoryKind::Standard),
        repo("r2", "https://repo.example.com/maven2", RepositoryKind::Plugin),
        repo("r3", "https://other.example.com/repo", RepositoryKind::Standard),
    ];
    deduplicate_repos(&mut repos);
    assert_eq!(repos.len(), 2);
    assert_eq!(repos[0].id.as_deref(), Some("r1"));
    assert_eq!(repos[1].id.as_deref(), Some("r3"));
}

#[test]
fn discovery_extract_property_ref() {
    extract_ref();
}

#[test]
fn discovery_extract_property_ref_with_whitespace() {
    extract_ref_ws();
}

#[test]
fn discovery_resolve_plain_value() {
    resolve_plain();
}

#[test]
fn discovery_resolve_property_value() {
    resolve_prop();
}

#[test]
fn discovery_resolve_missing_property_returns_raw() {
    resolve_missing();
}

#[test]
fn discovery_deduplicate_repos_by_url() {
    dedup_repos();
}

#[test]
fn resolve_chained_property_value() {
    let mut props = PropertyMap::new();
    props.insert("project.groupId".to_string(), "org.wildfly".to_string());
    props.insert("ee.maven.groupId".to_string(), "${project.groupId}".to_string());
    assert_eq!(resolve_value("${ee.maven.groupId}", &props), "org.wildfly");
}

#[test]
fn resolve_stops_after_depth_limit() {
    // A self-referencing property never resolves to a plain value.
    let mut props = PropertyMap::new();
    props.insert("loop".to_string(), "${loop}".to_string());
    assert_eq!(resolve_value("${loop}", &props), "${loop}");
}

#[test]
fn inject_project_properties_sets_all_fields() {
    let project = Project {
        group_id: Some("org.wildfly".into()),
        artifact_id: Some("wildfly-parent".into()),
        version: Some("35.0.0.Final".into()),
        packaging: Some("pom".into()),
        ..Default::default()
    };
    let mut props = PropertyMap::new();
    inject_project_properties(&project, &mut props);
    assert_eq!(props.get("project.groupId").unwrap(), "org.wildfly");
    assert_eq!(props.get("project.artifactId").unwrap(), "wildfly-parent");
    assert_eq!(props.get("project.version").unwrap(), "35.0.0.Final");
    assert_eq!(props.get("project.packaging").unwrap(), "pom");
}

#[test]
fn inject_project_properties_defaults_packaging_to_jar() {
    let project = Project {
        group_id: Some("org.example".into()),
        artifact_id: Some("my-lib".into()),
        version: Some("1.0.0".into()),
        ..Default::default()
    };
    let mut props = PropertyMap::new();
    inject_project_properties(&project, &mut props);
    assert_eq!(props.get("project.packaging").unwrap(), "jar");
}

#[test]
fn inject_child_properties_uses_child_values() {
    let parent = Project {
        group_id: Some("org.parent".into()),
        artifact_id: Some("parent".into()),
        version: Some("1.0.0".into()),
        ..Default::default()
    };
    let child = Project {
        group_id: Some("org.child".into()),
        artifact_id: Some("child-mod".into()),
        version: Some("2.0.0".into()),
        packaging: Some("war".into()),
        ..Default::default()
    };
    let mut props = PropertyMap::new();
    inject_project_properties_with_fallback(&child, &parent, &mut props);
    assert_eq!(props.get("project.groupId").unwrap(), "org.child");
    assert_eq!(props.get("project.artifactId").unwrap(), "child-mod");
    assert_eq!(props.get("project.version").unwrap(), "2.0.0");
    assert_eq!(props.get("project.packaging").unwrap(), "war");
}

#[test]
fn inject_child_properties_falls_back_to_parent() {
    let parent = Project {
        group_id: Some("org.parent".into()),
        artifact_id: Some("parent".into()),
        version: Some("1.0.0".into()),
        packaging: Some("pom".into()),
        ..Default::default()
    };
    let child = Project { artifact_id: Some("child-mod".into()), ..Default::default() };
    let mut props = PropertyMap::new();
    inject_project_properties_with_fallback(&child, &parent, &mut props);
    assert_eq!(props.get("project.groupId").unwrap(), "org.parent");
    assert_eq!(props.get("project.artifactId").unwrap(), "child-mod");
    assert_eq!(props.get("project.version").unwrap(), "1.0.0");
    assert_eq!(props.get("project.packaging").unwrap(), "pom");
}

fn mapping(name: &str, group: &str, artifact: &str) -> ArtifactMapping {
    ArtifactMapping {
        property: VersionProperty { name: name.to_string(), current_value: "1.0.0".to_string(), source: "pom.xml".into() },
        group_id: group.to_string(),
        artifact_id: artifact.to_string(),
        kind: ArtifactKind::Dependency,
        has_version_property: !name.contains(':'),
    }
}

#[test]
fn deduplicate_by_coordinates() {
    let mut mappings = vec![
        mapping("version.guava", "com.google.guava", "guava"),
        mapping("com.google.guava:guava", "com.google.guava", "guava"),
        mapping("version.junit", "org.junit.jupiter", "junit-jupiter"),
    ];
    deduplicate(&mut mappings);
    assert_eq!(mappings.len(), 2);
    assert_eq!(mappings[0].property.name, "version.guava");
    assert_eq!(mappings[1].property.name, "version.junit");
}

fn art(g: &str, a: &str, v: Option<&str>) -> Artifact {
    Artifact { group_id: Some(g.to_string()), artifact_id: Some(a.to_string()), version: v.map(String::from) }
}

#[test]
fn extract_mappings_includes_plain_versions() {
    let project = Project {
        artifacts: vec![
            (art("com.google.guava", "guava", Some("33.0.0-jre")), ArtifactKind::Dependency),
            (art("org.junit.jupiter", "junit-jupiter", Some("${version.junit}")), ArtifactKind::Dependency),
            (art("org.example", "no-version", None), ArtifactKind::Dependency),
        ],
        ..Default::default()
    };
    let mut properties = PropertyMap::new();
    properties.insert("version.junit".to_string(), "5.10.0".to_string());
    let mut property_sources = PropertyMap::new();
    property_sources.insert("version.junit".to_string(), "pom.xml".to_string());

    let mut mappings = Vec::new();
    extract_mappings(&project, "pom.xml", &properties, &property_sources, &mut mappings);
    assert_eq!(mappings.len(), 2);

    let guava = mappings.iter().find(|m| m.artifact_id == "guava").expect("guava mapping should exist");
    assert_eq!(guava.property.name, "com.google.guava:guava");
    assert_eq!(guava.property.current_value, "33.0.0-jre");
    assert_eq!(guava.group_id, "com.google.guava");
    assert!(!guava.has_version_property);

    let junit = mappings.iter().find(|m| m.artifact_id == "junit-jupiter").expect("junit mapping should exist");
    assert_eq!(junit.property.name, "version.junit");
    assert_eq!(junit.property.current_value, "5.10.0");
    assert!(junit.has_version_property);
}

fn props_of(entries: &[(&str, &str)]) -> PropertyMap {
    let mut m = PropertyMap::new();
    for (k, v) in entries {
        m.insert(k.to_string(), v.to_string());
    }
    m
}

#[test]
fn discover_child_properties_and_root_wins() {
    let root = Project {
        properties: props_of(&[("version.junit", "5.10.0")]),
        artifacts: vec![(art("org.junit.jupiter", "junit-jupiter", Some("${version.junit}")), ArtifactKind::Dependency)],
        ..Default::default()
    };
    let child = Project {
        properties: props_of(&[("quarkus.platform.version", "3.36.2"), ("version.junit", "4.0.0")]),
        artifacts: vec![(
            art("io.quarkus.platform", "quarkus-bom", Some("${quarkus.platform.version}")),
            ArtifactKind::Dependency,
        )],
        ..Default::default()
    };
    let children = vec![("child/pom.xml".to_string(), child)];
    let result = discover("pom.xml", &root, &children);

    let names: Vec<&str> = result.mappings.iter().map(|m| m.property.name.as_str()).collect();
    assert!(names.contains(&"quarkus.platform.version"));
    assert!(names.contains(&"version.junit"));

    let quarkus = result.mappings.iter().find(|m| m.property.name == "quarkus.platform.version").unwrap();
    assert_eq!(quarkus.property.current_value, "3.36.2");
    assert_eq!(quarkus.group_id, "io.quarkus.platform");
    assert_eq!(quarkus.artifact_id, "quarkus-bom");
    assert!(quarkus.property.source.ends_with("child/pom.xml"));

    let junit = result.mappings.iter().find(|m| m.property.name == "version.junit").unwrap();
    assert_eq!(junit.property.current_value, "5.10.0");
}

#[test]
fn discover_cross_pom_property_source_points_to_defining_pom() {
    let root = Project { properties: props_of(&[("version.lib", "1.0.0")]), ..Default::default() };
    let child = Project {
        artifacts: vec![(art("com.example", "some-lib", Some("${version.lib}")), ArtifactKind::Dependency)],
        ..Default::default()
    };
    let children = vec![("child/pom.xml".to_string(), child)];
    let result = discover("pom.xml", &root, &children);
    let lib = result.mappings.iter().find(|m| m.property.name == "version.lib").expect("mapping for version.lib");
    assert_eq!(lib.property.current_value, "1.0.0");
    assert_eq!(lib.group_id, "com.example");
    assert_eq!(lib.artifact_id, "some-lib");
    assert_eq!(lib.property.source, "pom.xml");
}

#[test]
fn discover_orphans_and_repositories() {
    let root = Project {
        properties: props_of(&[("version.node", "20.0.0"), ("version.junit", "5.10.0")]),
        artifacts: vec![(art("org.junit.jupiter", "junit-jupiter", Some("${version.junit}")), ArtifactKind::Dependency)],
        repositories: vec![repo("r1", "https://repo.example.com/maven2/", RepositoryKind::Standard)],
        ..Default::default()
    };
    let child = Project {
        repositories: vec![repo("r2", "https://repo.example.com/maven2", RepositoryKind::Plugin)],
        ..Default::default()
    };
    let children = vec![("m/pom.xml".to_string(), child)];
    let result = discover("pom.xml", &root, &children);
    assert_eq!(result.mappings.len(), 1);
    assert!(result.orphan_properties.iter().any(|p| p.name == "version.node" && p.current_value == "20.0.0"));
    assert!(!result.orphan_properties.iter().any(|p| p.name == "version.junit"));
    assert_eq!(result.repositories.len(), 1);
    assert_eq!(result.repositories[0].id.as_deref(), Some("r1"));
}
