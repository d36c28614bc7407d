//! The JSON records, error codes, tool property names and npm update outcomes,
//! checked on the values that the serialized output and the updates are made of.

use depup::error::{DepupError, DepupErrorCode, JsonErrorEnvelope};
use depup::model::{Dependency, DependencyKind, Ecosystem, UpdateResult, VersionResult, VersionStatus};
use depup::npm::{package_update_results, pm_update_result, pm_update_target, split_tool_versions};
use depup::output::{JsonResult, UpdateJsonResult};
use depup::tools::{LtsField, PmVersionsResolver};

fn junit() -> VersionResult {
    VersionResult::checked(
        Dependency::new(
            Ecosystem::Maven,
            DependencyKind::Dependency,
            "org.junit.jupiter:junit-jupiter".to_string(),
            Some("version.junit".to_string()),
            "pom.xml".to_string(),
        ),
        "5.10.0".to_string(),
        "5.12.0".to_string(),
        true,
    )
}

#[test]
fn error_code_serializes_as_screaming_snake_case() {
    assert_eq!(DepupErrorCode::PomNotFound.as_str(), "POM_NOT_FOUND");
}

#[test]
fn error_code_http_request_failed() {
    assert_eq!(DepupErrorCode::HttpRequestFailed.as_str(), "HTTP_REQUEST_FAILED");
}

#[test]
fn json_error_envelope_from_depup_error() {
    let err = DepupError::pom_not_found("/some/path");
    let envelope = JsonErrorEnvelope::from_depup_error(&err);
    assert_eq!(envelope.error.code.as_str(), "POM_NOT_FOUND");
    assert!(envelope.error.message.contains("/some/path"));
}

#[test]
fn json_json_result_round_trip() {
    let j = JsonResult::from_check(&junit());
    assert_eq!(j.base.ecosystem, "maven");
    assert_eq!(j.base.property.as_deref(), Some("version.junit"));
    assert_eq!(j.current, "5.10.0");
    assert_eq!(j.latest.as_deref(), Some("5.12.0"));
    assert_eq!(j.status, "outdated");
    assert_eq!(j.base.kind, "dependency");
    assert_eq!(j.base.artifact, "org.junit.jupiter:junit-jupiter");
    assert!(j.error.is_none());
}

#[test]
fn json_json_result_error_includes_error_field() {
    let r = VersionResult::error(
        Dependency::new(Ecosystem::Npm, DependencyKind::NpmDep, "react".to_string(), None, String::new()),
        "18.0.0".to_string(),
        "not found".to_string(),
    );
    let j = JsonResult::from_check(&r);
    assert_eq!(j.status, "error");
    assert_eq!(j.error.as_deref(), Some("not found"));
}

#[test]
fn update_json_result_updated() {
    let update = UpdateResult::updated(&junit(), "5.12.0".to_string());
    let j = UpdateJsonResult::from_update(&update);
    assert_eq!(j.status, "updated");
    assert_eq!(j.old_version, "5.10.0");
    assert_eq!(j.new_version, "5.12.0");
    assert_eq!(j.base.ecosystem, "maven");
    assert_eq!(j.base.kind, "dependency");
    assert!(j.error.is_none());
}

#[test]
fn update_json_result_would_update() {
    let check = VersionResult::checked(
        Dependency::new(
            Ecosystem::Maven,
            DependencyKind::Plugin,
            "org.apache.maven.plugins:maven-compiler-plugin".to_string(),
            Some("version.compiler".to_string()),
            "pom.xml".to_string(),
        ),
        "3.11.0".to_string(),
        "3.13.0".to_string(),
        true,
    );
    let j = UpdateJsonResult::would_update(&check);
    assert_eq!(j.status, "would_update");
    assert_eq!(j.base.kind, "plugin");
}

#[test]
fn json_json_result_skips_none_fields() {
    let r = VersionResult::checked(
        Dependency::new(Ecosystem::Maven, DependencyKind::Dependency, "g:a".to_string(), None, String::new()),
        "1.0".to_string(),
        "1.0".to_string(),
        false,
    );
    let j = JsonResult::from_check(&r);
    assert!(j.error.is_none());
    assert!(j.base.property.is_none());
    assert_eq!(j.base.artifact, "g:a");
}

#[test]
fn lts_field_parsing() {
    assert!(LtsField::Name("Jod".to_string()).is_lts());
    assert!(!LtsField::False(false).is_lts());
}

#[test]
fn lts_false_is_not_lts() {
    assert!(!LtsField::False(false).is_lts());
    // `true` (unusual but valid) does not count as LTS either: LTS needs a codename.
    assert!(!LtsField::False(true).is_lts());
}

#[test]
fn matches_npm_packages() {
    assert_eq!(PmVersionsResolver::resolve_package("version.npm"), Some("npm"));
    assert_eq!(PmVersionsResolver::resolve_package("npm.version"), Some("npm"));
    assert_eq!(PmVersionsResolver::resolve_package("version.pnpm"), Some("pnpm"));
    assert_eq!(PmVersionsResolver::resolve_package("pnpm.version"), Some("pnpm"));
    assert_eq!(PmVersionsResolver::resolve_package("version.yarn"), Some("yarn"));
    assert_eq!(PmVersionsResolver::resolve_package("yarn.version"), Some("yarn"));
}

#[test]
fn npm_does_not_match_unrelated() {
    assert_eq!(PmVersionsResolver::resolve_package("version.junit"), None);
    assert_eq!(PmVersionsResolver::resolve_package("npm"), None);
    assert_eq!(PmVersionsResolver::resolve_package("version.node"), None);
}

/// What updating a project does with its outdated results, the package
/// manager's own command and the `package.json` rewrite succeeding.
fn update_outcomes(outdated: &Vec<VersionResult>) -> Vec<UpdateResult> {
    let (tools, packages) = split_tool_versions(outdated);
    let mut results = Vec::new();
    if !packages.is_empty() {
        results.extend(package_update_results(&packages, &Ok(())));
    }
    for r in &tools {
        let target = pm_update_target(r);
        results.push(pm_update_result(r, &target, &Ok(())));
    }
    results
}

#[test]
fn tool_version_with_no_latest_produces_error() {
    let check = VersionResult {
        dep: Dependency::new(Ecosystem::Npm, DependencyKind::Tool, "npm".into(), None, "package.json".into()),
        current_version: "9.0.0".into(),
        status: VersionStatus::Outdated { latest: String::new() },
    };
    let results = update_outcomes(&vec![check]);
    assert_eq!(results.len(), 1);
    assert!(results[0].is_error());
}

#[test]
fn empty_outdated_returns_empty_results() {
    let results = update_outcomes(&Vec::new());
    assert!(results.is_empty());
}
