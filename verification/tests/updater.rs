use depup::model::{Dependency, DependencyKind, Ecosystem, UpdateResult, VersionResult};
use depup::updater::{plan_pom_updates, sort_by_artifact, updated_pom, write_outcome_results};

fn outdated_result(artifact: &str, property: Option<&str>, current: &str, latest: &str, source: &str) -> VersionResult {
    VersionResult::checked(
        Dependency::new(
            Ecosystem::Maven,
            DependencyKind::Dependency,
            artifact.to_string(),
            property.map(ToString::to_string),
            source.to_string(),
        ),
        current.to_string(),
        latest.to_string(),
        true,
    )
}

/// Plans, rewrites and reports the updates for one POM, as the update command does.
fn apply(xml: &str, results: &Vec<VersionResult>) -> (String, Vec<UpdateResult>) {
    let plans = plan_pom_updates(results);
    let mut text = xml.to_string();
    let mut updated = Vec::new();
    for plan in &plans {
        assert_eq!(plan.source, "pom.xml");
        text = updated_pom(&text, plan, results).unwrap();
        updated.extend(write_outcome_results(plan, results, None));
    }
    (text, sort_by_artifact(updated))
}

#[test]
fn updates_managed_property_in_pom() {
    let xml = r#"<project>
    <properties>
        <version.foo>1.0.0</version.foo>
        <version.bar>2.0.0</version.bar>
    </properties>
</project>"#;
    let results = vec![outdated_result("com.example:foo", Some("version.foo"), "1.0.0", "1.1.0", "pom.xml")];
    let (updated_xml, updated) = apply(xml, &results);
    assert_eq!(updated.len(), 1);
    assert_eq!(updated[0].dep.property, Some("version.foo".to_string()));
    assert_eq!(updated[0].old_version, "1.0.0");
    assert_eq!(updated[0].new_version, "1.1.0");
    assert!(!updated[0].is_error());
    assert!(updated_xml.contains("<version.foo>1.1.0</version.foo>"));
    assert!(updated_xml.contains("<version.bar>2.0.0</version.bar>"));
}

#[test]
fn updates_unmanaged_inline_versions() {
    let xml = r#"<project>
    <dependencies>
        <dependency>
            <groupId>com.google.guava</groupId>
            <artifactId>guava</artifactId>
            <version>30.0</version>
        </dependency>
    </dependencies>
</project>"#;
    let results = vec![outdated_result("com.google.guava:guava", None, "30.0", "31.0", "pom.xml")];
    let (updated_xml, updated) = apply(xml, &results);
    assert_eq!(updated.len(), 1);
    assert_eq!(updated[0].dep.artifact, "com.google.guava:guava");
    assert_eq!(updated[0].old_version, "30.0");
    assert_eq!(updated[0].new_version, "31.0");
    assert!(!updated[0].is_error());
    assert!(updated_xml.contains("<version>31.0</version>"));
    assert!(updated_xml.contains("<groupId>com.google.guava</groupId>"));
    assert!(updated_xml.contains("<artifactId>guava</artifactId>"));
}

#[test]
fn skips_non_outdated_results() {
    let xml = r#"<project>
    <properties>
        <version.foo>1.0.0</version.foo>
    </properties>
</project>"#;
    let (unchanged_xml, updated) = apply(xml, &Vec::new());
    assert!(updated.is_empty());
    assert_eq!(unchanged_xml, xml);
}

#[test]
fn updates_both_managed_and_inline_in_same_pom() {
    let xml = r#"<project>
    <properties>
        <version.junit>5.10.0</version.junit>
    </properties>
    <dependencies>
        <dependency>
            <groupId>org.junit.jupiter</groupId>
            <artifactId>junit-jupiter</artifactId>
            <version>${version.junit}</version>
        </dependency>
        <dependency>
            <groupId>com.google.guava</groupId>
            <artifactId>guava</artifactId>
            <version>33.0.0-jre</version>
        </dependency>
    </dependencies>
</project>"#;
    let results = vec![
        outdated_result("org.junit.jupiter:junit-jupiter", Some("version.junit"), "5.10.0", "5.11.0", "pom.xml"),
        outdated_result("com.google.guava:guava", None, "33.0.0-jre", "33.4.0-jre", "pom.xml"),
    ];
    let (updated_xml, updated) = apply(xml, &results);
    assert_eq!(updated.len(), 2);
    let property_update = updated.iter().find(|u| u.dep.property == Some("version.junit".to_string())).unwrap();
    assert_eq!(property_update.old_version, "5.10.0");
    assert_eq!(property_update.new_version, "5.11.0");
    let inline_update = updated.iter().find(|u| u.dep.artifact == "com.google.guava:guava").unwrap();
    assert_eq!(inline_update.old_version, "33.0.0-jre");
    assert_eq!(inline_update.new_version, "33.4.0-jre");
    assert!(updated_xml.contains("<version.junit>5.11.0</version.junit>"));
    assert!(updated_xml.contains("<version>33.4.0-jre</version>"));
    assert!(updated_xml.contains("<version>${version.junit}</version>"));
}

#[test]
fn plan_groups_by_source_and_write_errors_are_reported() {
    let results = vec![
        outdated_result("a:a", Some("version.a"), "1", "2", "pom.xml"),
        outdated_result("b:b", None, "1", "2", "m/pom.xml"),
        outdated_result("c:c", Some("version.a"), "1", "3", "pom.xml"),
    ];
    let plans = plan_pom_updates(&results);
    assert_eq!(plans.len(), 2);
    assert_eq!(plans[0].source, "pom.xml");
    assert_eq!(plans[0].properties.len(), 1);
    assert_eq!(plans[1].source, "m/pom.xml");
    assert_eq!(plans[1].inline, vec![1]);
    let failed = write_outcome_results(&plans[1], &results, Some("disk full"));
    assert_eq!(failed.len(), 1);
    assert_eq!(failed[0].error_message(), Some("Failed to write POM: disk full"));
}
