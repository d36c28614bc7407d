use depup::model::{DependencyInfo, DependencyKind, VersionStatus};
use depup::npm::{
    is_workspace_member, merge_results, parse_package_manager_field, parse_tree_name, replace_pm_value,
    InstalledPackage, NpmProject, OutdatedEntry, PackageManager,
};

fn make_installed(name: &str, version: &str, is_dev: bool) -> InstalledPackage {
    InstalledPackage { name: name.into(), version: version.into(), is_dev }
}

#[test]
fn merge_installed_with_outdated() {
    let installed = vec![
        make_installed("react", "18.0.0", false),
        make_installed("lodash", "4.17.21", false),
        make_installed("vitest", "1.0.0", true),
    ];
    let outdated = vec![(
        "react".to_string(),
        OutdatedEntry { current: "18.0.0".into(), latest: "19.0.0".into() },
    )];

    let results = merge_results(installed, &outdated, "package.json");
    assert_eq!(results.len(), 3);

    let react = results.iter().find(|r| r.artifact() == "react").unwrap();
    assert!(react.is_outdated());
    assert_eq!(react.current_version, "18.0.0");
    if let VersionStatus::Outdated { latest } = &react.status {
        assert_eq!(latest, "19.0.0");
    }

    let lodash = results.iter().find(|r| r.artifact() == "lodash").unwrap();
    assert!(!lodash.is_outdated());

    let vitest = results.iter().find(|r| r.artifact() == "vitest").unwrap();
    assert_eq!(vitest.kind(), DependencyKind::NpmDevDep);
}

#[test]
fn empty_installed_returns_empty() {
    let installed: Vec<InstalledPackage> = Vec::new();
    let outdated: Vec<(String, OutdatedEntry)> = Vec::new();
    let results = merge_results(installed, &outdated, "package.json");
    assert!(results.is_empty());
}

#[test]
fn outdated_with_empty_current_falls_back_to_installed_version() {
    let installed = vec![make_installed("react", "18.0.0", false)];
    let outdated = vec![(
        "react".to_string(),
        OutdatedEntry { current: String::new(), latest: "19.0.0".into() },
    )];
    let results = merge_results(installed, &outdated, "package.json");
    assert_eq!(results.len(), 1);
    let react = &results[0];
    assert_eq!(react.current_version, "18.0.0");
    assert!(react.is_outdated());
    if let VersionStatus::Outdated { latest } = &react.status {
        assert_eq!(latest, "19.0.0");
    }
}

#[test]
fn dev_deps_classified_correctly() {
    let installed = vec![make_installed("react", "18.0.0", false), make_installed("jest", "29.0.0", true)];
    let outdated: Vec<(String, OutdatedEntry)> = Vec::new();
    let results = merge_results(installed, &outdated, "package.json");
    assert_eq!(results[0].kind(), DependencyKind::NpmDep);
    assert_eq!(results[1].kind(), DependencyKind::NpmDevDep);
}

#[test]
fn merge_keeps_source_and_older_latest_is_not_outdated() {
    let installed = vec![make_installed("left-pad", "2.0.0", false)];
    let outdated = vec![(
        "left-pad".to_string(),
        OutdatedEntry { current: "2.0.0".into(), latest: "1.0.0".into() },
    )];
    let results = merge_results(installed, &outdated, "web/package.json");
    assert_eq!(results[0].source(), "web/package.json");
    assert!(!results[0].is_outdated());
    assert_eq!(results[0].latest_version(), Some("1.0.0"));
}

#[test]
fn replace_pm_value_basic() {
    let input = r#"{"packageManager": "pnpm@9.0.0"}"#;
    let result = replace_pm_value(input, "pnpm@10.0.0").unwrap();
    assert_eq!(result, r#"{"packageManager": "pnpm@10.0.0"}"#);
}

#[test]
fn replace_pm_value_with_hash_suffix() {
    let input = r#"{"packageManager": "pnpm@9.0.0+sha512.abc"}"#;
    let result = replace_pm_value(input, "pnpm@10.0.0").unwrap();
    assert_eq!(result, r#"{"packageManager": "pnpm@10.0.0"}"#);
}

#[test]
fn replace_pm_value_preserves_surrounding_content() {
    let input = r#"{
  "name": "test",
  "packageManager": "npm@9.0.0",
  "version": "1.0.0"
}"#;
    let expected = r#"{
  "name": "test",
  "packageManager": "npm@10.0.0",
  "version": "1.0.0"
}"#;
    let result = replace_pm_value(input, "npm@10.0.0").unwrap();
    assert_eq!(result, expected);
}

#[test]
fn replace_pm_value_not_found() {
    let input = r#"{"name": "test"}"#;
    assert!(replace_pm_value(input, "npm@10.0.0").is_none());
}

#[test]
fn parse_tree_name_regular() {
    let (pkg, ver) = parse_tree_name("react@18.2.0").unwrap();
    assert_eq!(pkg, "react");
    assert_eq!(ver, "18.2.0");
}

#[test]
fn parse_tree_name_scoped() {
    let (pkg, ver) = parse_tree_name("@types/node@20.0.0").unwrap();
    assert_eq!(pkg, "@types/node");
    assert_eq!(ver, "20.0.0");
}

#[test]
fn parse_tree_name_no_version() {
    assert!(parse_tree_name("react").is_none());
}

#[test]
fn parse_tree_name_trailing_at() {
    assert!(parse_tree_name("react@").is_none());
}

#[test]
fn parse_tree_name_leading_at_only() {
    assert!(parse_tree_name("@types").is_none());
}

#[test]
fn detects_pnpm_by_package_manager_field() {
    let (pm, v) = parse_package_manager_field("pnpm@9.15.0").unwrap();
    assert_eq!(pm, PackageManager::Pnpm);
    assert_eq!(v, "9.15.0");
}

#[test]
fn detects_npm_by_package_manager_field() {
    let (pm, v) = parse_package_manager_field("npm@10.0.0").unwrap();
    assert_eq!(pm, PackageManager::Npm);
    assert_eq!(v, "10.0.0");
}

#[test]
fn detects_yarn_by_package_manager_field() {
    let (pm, v) = parse_package_manager_field("yarn@4.0.0").unwrap();
    assert_eq!(pm, PackageManager::Yarn);
    assert_eq!(v, "4.0.0");
}

#[test]
fn detects_bun_by_package_manager_field() {
    let (pm, v) = parse_package_manager_field("bun@1.1.0").unwrap();
    assert_eq!(pm, PackageManager::Bun);
    assert_eq!(v, "1.1.0");
}

#[test]
fn strips_hash_suffix_from_pm_version() {
    let (pm, v) = parse_package_manager_field("pnpm@9.15.0+sha512.abc123").unwrap();
    assert_eq!(pm, PackageManager::Pnpm);
    assert_eq!(v, "9.15.0");
}

#[test]
fn parse_pm_field_returns_none_for_unknown_pm() {
    assert!(parse_package_manager_field("deno@1.0.0").is_none());
}

#[test]
fn parse_pm_field_returns_none_without_at() {
    assert!(parse_package_manager_field("pnpm").is_none());
}

#[test]
fn skips_pnpm_workspace_members() {
    let roots = vec!["/repo".to_string()];
    assert!(is_workspace_member("/repo/packages/member-a", &roots));
    assert!(!is_workspace_member("/repo", &roots));
}

#[test]
fn skips_npm_workspace_members() {
    let roots = vec!["/mono".to_string()];
    assert!(is_workspace_member("/mono/packages/child", &roots));
    assert!(!is_workspace_member("/mono", &roots));
    assert!(!is_workspace_member("/other/child", &roots));
}

#[test]
fn package_manager_commands() {
    assert_eq!(PackageManager::Npm.command(), "npm");
    assert_eq!(PackageManager::Pnpm.command(), "pnpm");
    assert_eq!(PackageManager::Yarn.to_string(), "yarn");
    assert_eq!(PackageManager::Bun.to_string(), "bun");
}

#[test]
fn relative_source_strips_root() {
    let p = NpmProject {
        path: "/repo/app-a".into(),
        name: "app-a".into(),
        package_manager: PackageManager::Npm,
        pm_version: None,
    };
    assert_eq!(p.relative_source("/repo"), "app-a/package.json");
    assert_eq!(p.relative_source("/elsewhere"), "/repo/app-a/package.json");
}
