use depup::discovery::{discover, sort_mappings_exec, ArtifactMapping, VersionProperty};
use depup::maven::filter_versions;
use depup::model::{Dependency, DependencyKind, Ecosystem, UpdateResult, VersionResult};
use depup::npm::finish_project_results;
use depup::pom::{Artifact, ArtifactKind, Project};
use depup::props::PropertyMap;
use depup::pom_writer::{apply_replacements, sort_replacements, Replacement};
use depup::updater::sort_by_artifact;

fn check(artifact: &str, ecosystem: Ecosystem, kind: DependencyKind) -> VersionResult {
    VersionResult::checked(
        Dependency::new(ecosystem, kind, artifact.to_string(), None, "pom.xml".to_string()),
        "1.0.0".to_string(),
        "2.0.0".to_string(),
        true,
    )
}

fn strings(v: &[&str]) -> Vec<String> {
    v.iter().map(ToString::to_string).collect()
}

#[test]
fn update_results_sorted_by_artifact_keep_every_result() {
    let updates: Vec<UpdateResult> = ["org.c:c", "org.a:a", "org.b:b", "org.a:a"]
        .iter()
        .enumerate()
        .map(|(i, a)| UpdateResult::updated(&check(a, Ecosystem::Maven, DependencyKind::Dependency), format!("{i}.0")))
        .collect();
    let sorted = sort_by_artifact(updates);
    let artifacts: Vec<&str> = sorted.iter().map(|u| u.dep.artifact.as_str()).collect();
    assert_eq!(artifacts, vec!["org.a:a", "org.a:a", "org.b:b", "org.c:c"]);
    // Equal artifacts keep their order.
    assert_eq!(sorted[0].new_version, "1.0");
    assert_eq!(sorted[1].new_version, "3.0");
}

#[test]
fn project_results_sorted_by_artifact_with_package_manager_result() {
    let results = vec![
        check("react", Ecosystem::Npm, DependencyKind::NpmDep),
        check("lodash", Ecosystem::Npm, DependencyKind::NpmDep),
    ];
    let pm = check("pnpm", Ecosystem::Npm, DependencyKind::Tool);
    let all = finish_project_results(results, Some(pm));
    let artifacts: Vec<&str> = all.iter().map(|r| r.dep.artifact.as_str()).collect();
    assert_eq!(artifacts, vec!["lodash", "pnpm", "react"]);
}

fn mapping(name: &str, kind: ArtifactKind) -> ArtifactMapping {
    ArtifactMapping {
        property: VersionProperty { name: name.to_string(), current_value: "1.0".to_string(), source: "pom.xml".into() },
        group_id: "org.example".to_string(),
        artifact_id: name.to_string(),
        kind,
        has_version_property: true,
    }
}

#[test]
fn mappings_sorted_by_kind_then_property_name() {
    let sorted = sort_mappings_exec(vec![
        mapping("version.zeta", ArtifactKind::Plugin),
        mapping("version.beta", ArtifactKind::Dependency),
        mapping("version.alpha", ArtifactKind::Plugin),
        mapping("version.alpha", ArtifactKind::Dependency),
    ]);
    let order: Vec<(&str, ArtifactKind)> = sorted.iter().map(|m| (m.property.name.as_str(), m.kind)).collect();
    assert_eq!(
        order,
        vec![
            ("version.alpha", ArtifactKind::Dependency),
            ("version.beta", ArtifactKind::Dependency),
            ("version.alpha", ArtifactKind::Plugin),
            ("version.zeta", ArtifactKind::Plugin),
        ]
    );
}

#[test]
fn replacements_sorted_by_start() {
    let reps = vec![
        Replacement { start: 9, end: 10, new_value: "c".into() },
        Replacement { start: 0, end: 1, new_value: "a".into() },
        Replacement { start: 4, end: 5, new_value: "b".into() },
    ];
    let starts: Vec<usize> = sort_replacements(reps).iter().map(|r| r.start).collect();
    assert_eq!(starts, vec![0, 4, 9]);
}

#[test]
fn single_replacement_splices_value_and_keeps_the_rest() {
    let xml = "<version>1.0.0</version>";
    let out = apply_replacements(xml, vec![Replacement { start: 9, end: 14, new_value: "2.5.1".into() }]);
    assert_eq!(out.as_deref(), Some("<version>2.5.1</version>"));
}

#[test]
fn version_filter_drops_snapshots_always_and_pre_releases_when_asked() {
    let versions = strings(&["1.0.0", "1.1.0-SNAPSHOT", "1.2.0-beta1", "1.2.0", "2.0.0-snapshot"]);
    assert_eq!(filter_versions(&versions, false), strings(&["1.0.0", "1.2.0-beta1", "1.2.0"]));
    assert_eq!(filter_versions(&versions, true), strings(&["1.0.0", "1.2.0"]));
}

fn artifact(g: &str, a: &str, v: &str) -> Artifact {
    Artifact { group_id: Some(g.to_string()), artifact_id: Some(a.to_string()), version: Some(v.to_string()) }
}

#[test]
fn discovery_orders_mappings_keeps_coordinates_unique_and_builtins_out_of_orphans() {
    let mut properties = PropertyMap::new();
    properties.insert("version.surefire".to_string(), "3.0.0".to_string());
    properties.insert("version.junit".to_string(), "5.10.0".to_string());
    properties.insert("version.node".to_string(), "20.0.0".to_string());
    let root = Project {
        group_id: Some("org.example".to_string()),
        artifacts: vec![
            (artifact("org.apache.maven.plugins", "maven-surefire-plugin", "${version.surefire}"), ArtifactKind::Plugin),
            (artifact("org.junit.jupiter", "junit-jupiter", "${version.junit}"), ArtifactKind::Dependency),
            (artifact("com.google.guava", "guava", "33.0.0-jre"), ArtifactKind::Dependency),
            (artifact("org.junit.jupiter", "junit-jupiter", "5.9.0"), ArtifactKind::Dependency),
        ],
        properties,
        ..Default::default()
    };
    let result = discover("pom.xml", &root, &Vec::new());
    let order: Vec<(&str, ArtifactKind)> = result.mappings.iter().map(|m| (m.property.name.as_str(), m.kind)).collect();
    assert_eq!(
        order,
        vec![
            ("com.google.guava:guava", ArtifactKind::Dependency),
            ("version.junit", ArtifactKind::Dependency),
            ("version.surefire", ArtifactKind::Plugin),
        ]
    );
    let orphans: Vec<&str> = result.orphan_properties.iter().map(|p| p.name.as_str()).collect();
    assert_eq!(orphans, vec!["version.node"]);
}

#[test]
fn properties_not_in_the_document_leave_it_unchanged() {
    let xml = "<project>\n  <properties>\n    <version.junit>5.10.0</version.junit>\n  </properties>\n</project>\n";
    let mut updates = PropertyMap::new();
    updates.insert("version.missing".to_string(), "9.9.9".to_string());
    assert_eq!(depup::pom_writer::update_properties(xml, &updates).unwrap(), xml);
}
