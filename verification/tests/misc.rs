use depup::error::{DepupError, DepupErrorCode, JsonErrorEnvelope};
use depup::model::{Dependency, DependencyInfo, DependencyKind, Ecosystem, VersionResult, VersionStatus};
use depup::props::PropertyMap;

#[test]
fn depup_error_display_uses_message() {
    let err = DepupError::pom_not_found("/some/path");
    assert_eq!(err.to_string(), "No pom.xml found in /some/path");
}

#[test]
fn depup_error_parameterized_message() {
    let err = DepupError::http_request_failed("https://repo.example.com", "timeout");
    assert_eq!(err.to_string(), "HTTP request failed for https://repo.example.com: timeout");
}

#[test]
fn error_codes_and_envelopes() {
    assert_eq!(DepupErrorCode::PomNotFound.as_str(), "POM_NOT_FOUND");
    assert_eq!(DepupErrorCode::HttpRequestFailed.as_str(), "HTTP_REQUEST_FAILED");
    let err = DepupError::pom_not_found("/some/path");
    let envelope = JsonErrorEnvelope::from_depup_error(&err);
    assert_eq!(envelope.error.code, DepupErrorCode::PomNotFound);
    assert!(envelope.error.message.contains("/some/path"));
    let internal = JsonErrorEnvelope::internal("something unexpected".into());
    assert_eq!(internal.error.code, DepupErrorCode::Internal);
    assert_eq!(internal.error.message, "something unexpected");
}

fn outdated_check(name: &str, current: &str, latest: &str, kind: DependencyKind) -> VersionResult {
    VersionResult {
        dep: Dependency::new(Ecosystem::Npm, kind, name.into(), None, "package.json".into()),
        current_version: current.into(),
        status: VersionStatus::Outdated { latest: latest.into() },
    }
}

#[test]
fn partitions_tool_versions_from_packages() {
    let outdated = vec![
        outdated_check("react", "18.0.0", "19.0.0", DependencyKind::NpmDep),
        outdated_check("npm", "9.0.0", "10.0.0", DependencyKind::Tool),
        outdated_check("lodash", "4.0.0", "5.0.0", DependencyKind::NpmDep),
    ];
    let (tools, packages): (Vec<_>, Vec<_>) = outdated.iter().partition(|r| r.kind() == DependencyKind::Tool);
    assert_eq!(tools.len(), 1);
    assert_eq!(packages.len(), 2);
}

#[test]
fn property_map_keeps_insertion_order_and_overwrites() {
    let mut m = PropertyMap::new();
    m.insert("b".into(), "1".into());
    m.insert("a".into(), "2".into());
    m.insert("b".into(), "3".into());
    assert_eq!(m.len(), 2);
    assert_eq!(m.key_at(0), "b");
    assert_eq!(m.value_at(0), "3");
    assert_eq!(m.get("a").map(String::as_str), Some("2"));
    assert!(m.contains_key("a"));
    assert!(!m.contains_key("c"));
    assert_eq!(m.position("a"), Some(1));
}
