use depup::discovery::{ArtifactMapping, VersionProperty};
use depup::maven::{filter_versions, parse_metadata_versions, sort_dedup_versions, CentralOutcome, MavenVersionResolver};
use depup::model::VersionStatus;
use depup::pom::{ArtifactKind, Repository, RepositoryKind};
use depup::version::{find_latest, is_newer, is_pre_release};

fn check_parse_metadata_xml() {
    let xml = r#"<?xml version="1.0" encoding="UTF-8"?>
<metadata>
  <groupId>org.example</groupId>
  <artifactId>my-lib</artifactId>
  <versioning>
    <latest>2.0.0</latest>
    <release>2.0.0</release>
    <versions>
      <version>1.0.0</version>
      <version>1.1.0</version>
      <version>2.0.0</version>
    </versions>
  </versioning>
</metadata>"#;
    let versions = parse_metadata_versions(xml);
    assert_eq!(versions, vec!["1.0.0", "1.1.0", "2.0.0"]);
}

fn check_parse_metadata_with_snapshots_and_qualifiers() {
    let xml = r#"<metadata>
  <versioning>
    <versions>
      <version>1.0.0</version>
      <version>1.1.0-SNAPSHOT</version>
      <version>2.0.0-alpha1</version>
      <version>2.0.0.Final</version>
    </versions>
  </versioning>
</metadata>"#;
    let versions = parse_metadata_versions(xml);
    assert_eq!(versions, vec!["1.0.0", "1.1.0-SNAPSHOT", "2.0.0-alpha1", "2.0.0.Final"]);
}

fn check_parse_empty_metadata() {
    let xml = r#"<metadata><versioning><versions></versions></versioning></metadata>"#;
    let versions = parse_metadata_versions(xml);
    assert!(versions.is_empty());
}

fn check_filters_snapshots_by_default() {
    let versions = vec!["1.0.0".to_string(), "2.0.0-SNAPSHOT".to_string(), "1.5.0".to_string()];
    let filtered = filter_versions(&versions, false);
    assert_eq!(filtered, vec!["1.0.0", "1.5.0"]);
}

fn check_includes_pre_releases_by_default() {
    let versions = vec![
        "1.0.0".to_string(),
        "2.0.0-alpha1".to_string(),
        "1.5.0".to_string(),
        "2.0.0-RC1".to_string(),
    ];
    let filtered = filter_versions(&versions, false);
    assert_eq!(filtered, vec!["1.0.0", "2.0.0-alpha1", "1.5.0", "2.0.0-RC1"]);
}

fn check_filters_pre_releases_when_releases_only() {
    let versions = vec![
        "1.0.0".to_string(),
        "2.0.0-alpha1".to_string(),
        "1.5.0".to_string(),
        "2.0.0-RC1".to_string(),
    ];
    let filtered = filter_versions(&versions, true);
    assert_eq!(filtered, vec!["1.0.0", "1.5.0"]);
}

fn check_snapshots_always_filtered_even_when_not_releases_only() {
    let versions = vec!["1.0.0".to_string(), "2.0.0-SNAPSHOT".to_string()];
    let filtered = filter_versions(&versions, false);
    assert_eq!(filtered, vec!["1.0.0"]);
}

fn check_find_latest_version() {
    let versions = vec!["1.0.0".to_string(), "2.3.1".to_string(), "2.1.0".to_string()];
    assert_eq!(find_latest(&versions).unwrap(), "2.3.1");
}

fn check_find_latest_with_qualifiers() {
    let versions = vec!["3.0.0.Final".to_string(), "3.1.0.Final".to_string(), "2.5.0.Final".to_string()];
    assert_eq!(find_latest(&versions).unwrap(), "3.1.0.Final");
}

fn repos() -> Vec<Repository> {
    vec![
        Repository { id: None, name: None, url: "https://dep-repo.example.com".into(), kind: RepositoryKind::Standard },
        Repository { id: None, name: None, url: "https://plugin-repo.example.com".into(), kind: RepositoryKind::Plugin },
    ]
}

fn check_repo_urls_for_dependency() {
    let checker = MavenVersionResolver::new(false, repos());
    let urls = checker.repo_urls_for(ArtifactKind::Dependency);
    assert_eq!(urls, vec!["https://dep-repo.example.com"]);
}

fn check_repo_urls_for_plugin() {
    let checker = MavenVersionResolver::new(false, repos());
    let urls = checker.repo_urls_for(ArtifactKind::Plugin);
    assert_eq!(urls, vec!["https://plugin-repo.example.com"]);
}

#[test]
fn maven_central_parse_metadata_xml() {
    check_parse_metadata_xml();
}

#[test]
fn maven_central_parse_metadata_with_snapshots_and_qualifiers() {
    check_parse_metadata_with_snapshots_and_qualifiers();
}

#[test]
fn maven_central_parse_empty_metadata() {
    check_parse_empty_metadata();
}

#[test]
fn maven_central_filters_snapshots_by_default() {
    check_filters_snapshots_by_default();
}

#[test]
fn maven_central_includes_pre_releases_by_default() {
    check_includes_pre_releases_by_default();
}

#[test]
fn maven_central_filters_pre_releases_when_releases_only() {
    check_filters_pre_releases_when_releases_only();
}

#[test]
fn maven_central_snapshots_always_filtered_even_when_not_releases_only() {
    check_snapshots_always_filtered_even_when_not_releases_only();
}

#[test]
fn maven_central_find_latest_version() {
    check_find_latest_version();
}

#[test]
fn maven_central_find_latest_with_qualifiers() {
    check_find_latest_with_qualifiers();
}

#[test]
fn maven_central_repo_urls_for_dependency() {
    check_repo_urls_for_dependency();
}

#[test]
fn maven_central_repo_urls_for_plugin() {
    check_repo_urls_for_plugin();
}

#[test]
fn registry_parse_metadata_xml() {
    check_parse_metadata_xml();
}

#[test]
fn registry_parse_metadata_with_snapshots_and_qualifiers() {
    check_parse_metadata_with_snapshots_and_qualifiers();
}

#[test]
fn registry_parse_empty_metadata() {
    check_parse_empty_metadata();
}

#[test]
fn registry_filters_snapshots_by_default() {
    check_filters_snapshots_by_default();
}

#[test]
fn registry_includes_pre_releases_by_default() {
    check_includes_pre_releases_by_default();
}

#[test]
fn registry_filters_pre_releases_when_releases_only() {
    check_filters_pre_releases_when_releases_only();
}

#[test]
fn registry_snapshots_always_filtered_even_when_not_releases_only() {
    check_snapshots_always_filtered_even_when_not_releases_only();
}

#[test]
fn registry_find_latest_version() {
    check_find_latest_version();
}

#[test]
fn registry_find_latest_with_qualifiers() {
    check_find_latest_with_qualifiers();
}

#[test]
fn registry_repo_urls_for_dependency() {
    check_repo_urls_for_dependency();
}

#[test]
fn registry_repo_urls_for_plugin() {
    check_repo_urls_for_plugin();
}


fn mapping(current: &str, kind: ArtifactKind) -> ArtifactMapping {
    ArtifactMapping {
        property: VersionProperty { name: "version.lib".into(), current_value: current.into(), source: "pom.xml".into() },
        group_id: "org.example".into(),
        artifact_id: "lib".into(),
        kind,
        has_version_property: true,
    }
}

#[test]
fn resolver_skips_pre_release_current_when_releases_only() {
    let r = MavenVersionResolver::new(true, Vec::new());
    let res = r.resolve_start(&mapping("2.0.0-beta1", ArtifactKind::Dependency), "pom.xml").unwrap();
    assert!(res.is_skipped());
    assert!(MavenVersionResolver::new(false, Vec::new())
        .resolve_start(&mapping("2.0.0-beta1", ArtifactKind::Dependency), "pom.xml")
        .is_none());
}

#[test]
fn resolver_after_central_decisions() {
    let m = mapping("1.0.0", ArtifactKind::Dependency);
    let plain = MavenVersionResolver::new(false, Vec::new());
    match plain.after_central(&m, "pom.xml", Ok(vec!["1.0.0".into()])) {
        CentralOutcome::Versions(v) => assert_eq!(v, vec!["1.0.0"]),
        _ => panic!("expected versions"),
    }
    match plain.after_central(&m, "pom.xml", Ok(Vec::new())) {
        CentralOutcome::Finished(res) => assert_eq!(res.error_message(), Some("No versions found for org.example:lib")),
        _ => panic!("expected an error"),
    }
    match plain.after_central(&m, "pom.xml", Err("HTTP 500".into())) {
        CentralOutcome::Finished(res) => assert_eq!(res.error_message(), Some("HTTP 500")),
        _ => panic!("expected an error"),
    }
    let with_repos = MavenVersionResolver::new(false, repos());
    match with_repos.after_central(&m, "pom.xml", Err("HTTP 500".into())) {
        CentralOutcome::AskRepositories(urls) => assert_eq!(urls, vec!["https://dep-repo.example.com"]),
        _ => panic!("expected repositories"),
    }
}

#[test]
fn resolver_after_repositories_merges_sorted_unique() {
    let m = mapping("1.0.0", ArtifactKind::Dependency);
    let r = MavenVersionResolver::new(false, repos());
    let merged = r
        .after_repositories(&m, "pom.xml", vec![Ok(vec!["2.0".into(), "1.0".into()]), Err("down".into()), Ok(vec!["1.0".into()])])
        .unwrap();
    assert_eq!(merged, vec!["1.0", "2.0"]);
    let none = r.after_repositories(&m, "pom.xml", vec![Err("down".into())]).unwrap_err();
    assert_eq!(none.error_message(), Some("No versions found for org.example:lib"));
}

#[test]
fn resolver_finish_compares_latest() {
    let m = mapping("1.0.0", ArtifactKind::Dependency);
    let r = MavenVersionResolver::new(true, Vec::new());
    let res = r.finish(&m, "pom.xml", &vec!["1.0.0".into(), "1.2.0".into(), "2.0.0-RC1".into()]);
    assert!(res.is_outdated());
    assert_eq!(res.latest_version(), Some("1.2.0"));
    let res = r.finish(&m, "pom.xml", &vec!["2.0.0-SNAPSHOT".into()]);
    assert_eq!(res.error_message(), Some("No release versions found for org.example:lib"));
    let res = r.finish(&m, "pom.xml", &vec!["1.0.0".into()]);
    assert!(matches!(res.status, VersionStatus::UpToDate { .. }));
}

#[test]
fn version_ordering_rules() {
    assert!(is_newer("1.0.0", "1.0.1"));
    assert!(!is_newer("1.0.1", "1.0.0"));
    assert!(!is_newer("1.0.0", "1.0.0"));
    assert!(is_newer("1.9", "1.10"));
    assert!(!is_newer("abc", "1.0"));
    assert!(is_pre_release("2.0.0-alpha1"));
    assert!(is_pre_release("1.0.0-RC1"));
    assert!(!is_pre_release("2.0.0.Final"));
    assert!(!is_pre_release("1.0.0"));
}

#[test]
fn sort_dedup_orders_and_removes_repeats() {
    let v = sort_dedup_versions(vec!["b".into(), "a".into(), "b".into()]);
    assert_eq!(v, vec!["a", "b"]);
}

#[test]
fn find_latest_of_no_versions_is_none() {
    assert_eq!(find_latest(&Vec::new()), None);
    assert_eq!(find_latest(&vec!["abc".to_string()]), None);
}
