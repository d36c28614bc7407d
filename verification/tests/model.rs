use depup::model::{
    AuditResult, CheckResult, Dependency, DependencyInfo, DependencyKind, Ecosystem, Severity,
    UpdateResult, VersionResult, VersionStatus, Vulnerability,
};

fn dep_id() -> Dependency {
    Dependency::new(
        Ecosystem::Maven,
        DependencyKind::Dependency,
        "org.junit:junit".to_string(),
        Some("version.junit".to_string()),
        String::new(),
    )
}

fn plain(artifact: &str) -> Dependency {
    Dependency::new(Ecosystem::Maven, DependencyKind::Dependency, artifact.into(), None, String::new())
}

fn make_dep() -> Dependency {
    Dependency::new(
        Ecosystem::Maven,
        DependencyKind::Dependency,
        "org.example:lib".into(),
        Some("version.lib".into()),
        "pom.xml".into(),
    )
}

fn check_checked(r: &VersionResult) {
    assert!(r.is_outdated());
    assert!(!r.is_skipped());
    assert!(r.error_message().is_none());
    assert_eq!(r.latest_version(), Some("5.12.0"));
}

fn check_skipped() {
    let id = Dependency::new(
        Ecosystem::Maven,
        DependencyKind::Dependency,
        "org.alpha:alpha".to_string(),
        Some("version.alpha".to_string()),
        String::new(),
    );
    let r = VersionResult::skipped(id, "1.0.0-alpha".to_string());
    assert!(r.is_skipped());
    assert!(!r.is_outdated());
    assert!(r.latest_version().is_none());
}

fn check_error() {
    let id = Dependency::new(
        Ecosystem::Maven,
        DependencyKind::Plugin,
        "org.plugin:plugin".to_string(),
        Some("version.plugin".to_string()),
        String::new(),
    );
    let r = VersionResult::error(id, "1.0".to_string(), "timeout".to_string());
    assert!(r.error_message().is_some());
    assert!(!r.is_outdated());
    assert!(!r.is_skipped());
}

fn check_status() {
    let up_to_date = VersionResult::checked(plain("g:a"), "1.0".into(), "1.0".into(), false);
    assert!(matches!(up_to_date.status, VersionStatus::UpToDate { .. }));

    let outdated = VersionResult::checked(plain("g:a"), "1.0".into(), "2.0".into(), true);
    assert!(matches!(outdated.status, VersionStatus::Outdated { .. }));

    let skipped = VersionResult::skipped(plain("g:a"), "1.0".into());
    assert!(matches!(skipped.status, VersionStatus::Skipped));

    let error = VersionResult::error(plain("g:a"), "1.0".into(), "fail".into());
    assert!(matches!(error.status, VersionStatus::Error { .. }));
}

fn check_ecosystem_display() {
    assert_eq!(Ecosystem::Maven.to_string(), "Maven");
    assert_eq!(Ecosystem::Npm.to_string(), "npm");
}

fn check_with_property() {
    let id = dep_id();
    assert!(id.property.is_some());
    assert_eq!(id.property, Some("version.junit".to_string()));
}

fn check_without_property() {
    let id = Dependency::new(
        Ecosystem::Maven,
        DependencyKind::Dependency,
        "com.google.guava:guava".into(),
        None,
        String::new(),
    );
    assert!(id.property.is_none());
}

fn check_update_from_check() {
    let check = VersionResult::checked(dep_id(), "5.10.0".into(), "5.12.0".into(), true);
    let update = UpdateResult::updated(&check, "5.12.0".into());
    assert_eq!(update.dep.ecosystem, Ecosystem::Maven);
    assert_eq!(update.old_version, "5.10.0");
    assert_eq!(update.new_version, "5.12.0");
    assert!(!update.is_error());
}

fn check_update_error() {
    let check = VersionResult::checked(dep_id(), "5.10.0".into(), "5.12.0".into(), true);
    let update = UpdateResult::error(&check, "write failed".into());
    assert!(update.is_error());
    assert_eq!(update.error_message(), Some("write failed"));
}

#[test]
fn dependency_ecosystem_display() {
    check_ecosystem_display();
}

#[test]
fn dependency_checked_result_fields() {
    let r = VersionResult::checked(dep_id(), "5.10.0".to_string(), "5.12.0".to_string(), true);
    check_checked(&r);
}

#[test]
fn dependency_skipped_result_fields() {
    check_skipped();
}

#[test]
fn dependency_error_result_fields() {
    check_error();
}

#[test]
fn dependency_status_matches_state() {
    check_status();
}

#[test]
fn dependency_dependency_with_property() {
    check_with_property();
}

#[test]
fn dependency_dependency_without_property() {
    check_without_property();
}

#[test]
fn dependency_update_result_from_check_result() {
    check_update_from_check();
}

#[test]
fn dependency_update_result_error() {
    check_update_error();
}

#[test]
fn update_update_result_from_check_result() {
    check_update_from_check();
}

#[test]
fn update_update_result_error() {
    check_update_error();
}

#[test]
fn check_checked_result_fields() {
    let r = CheckResult::checked(dep_id(), "5.10.0".to_string(), "5.12.0".to_string(), true);
    check_checked(&r);
}

#[test]
fn check_skipped_result_fields() {
    check_skipped();
}

#[test]
fn check_error_result_fields() {
    check_error();
}

#[test]
fn check_status_matches_state() {
    check_status();
}

#[test]
fn mod_ecosystem_display() {
    check_ecosystem_display();
}

#[test]
fn mod_dependency_kind_display() {
    assert_eq!(DependencyKind::Dependency.to_string(), "Dependency");
    assert_eq!(DependencyKind::Plugin.to_string(), "Plugin");
    assert_eq!(DependencyKind::Tool.to_string(), "Tool");
    assert_eq!(DependencyKind::NpmDep.to_string(), "Dependency");
    assert_eq!(DependencyKind::NpmDevDep.to_string(), "Dev Dependency");
}

#[test]
fn mod_dependency_with_property() {
    check_with_property();
}

#[test]
fn mod_dependency_without_property() {
    check_without_property();
}

#[test]
fn is_vulnerable_with_vulns() {
    let result = AuditResult {
        dep: make_dep(),
        version: "1.0.0".into(),
        vulnerabilities: vec![Vulnerability::test("CVE-1", Severity::High)],
    };
    assert!(result.is_vulnerable());
}

#[test]
fn is_vulnerable_without_vulns() {
    let result = AuditResult { dep: make_dep(), version: "1.0.0".into(), vulnerabilities: Vec::new() };
    assert!(!result.is_vulnerable());
}

#[test]
fn max_severity_returns_highest() {
    let result = AuditResult {
        dep: make_dep(),
        version: "1.0.0".into(),
        vulnerabilities: vec![
            Vulnerability::test("V1", Severity::Low),
            Vulnerability::test("V2", Severity::Critical),
            Vulnerability::test("V3", Severity::Medium),
        ],
    };
    assert_eq!(result.max_severity(), Severity::Critical);
}

#[test]
fn max_severity_empty_returns_unknown() {
    let result = AuditResult { dep: make_dep(), version: "1.0.0".into(), vulnerabilities: Vec::new() };
    assert_eq!(result.max_severity(), Severity::Unknown);
}

#[test]
fn from_version_result_copies_fields() {
    let check = CheckResult::checked(make_dep(), "1.0.0".into(), "2.0.0".into(), true);
    let vulns = vec![Vulnerability::test("CVE-1", Severity::High)];
    let audit = AuditResult::from_version_result(&check, vulns);
    assert_eq!(audit.version, "1.0.0");
    assert_eq!(audit.artifact(), "org.example:lib");
    assert_eq!(audit.property(), Some("version.lib"));
    assert_eq!(audit.source(), "pom.xml");
    assert_eq!(audit.vulnerabilities.len(), 1);
}

#[test]
fn severity_rank_orders_labels() {
    assert!(Severity::Critical.at_least(&Severity::High));
    assert!(Severity::High.at_least(&Severity::High));
    assert!(!Severity::Low.at_least(&Severity::Medium));
    assert_eq!(Severity::Unknown.rank(), 0);
    assert_eq!(Severity::Critical.rank(), 4);
}

#[test]
fn update_error_without_latest_has_empty_new_version() {
    let check = VersionResult::skipped(plain("g:a"), "1.0".into());
    let update = UpdateResult::error(&check, "boom".into());
    assert_eq!(update.new_version, "");
    assert_eq!(update.old_version, "1.0");
}
