//! Reading the fields of `package.json` texts.

use depup::package_json::{
    dependency_sections, dev_dependency_names, dir_facts_of, installed_version_of, package_json_facts, registry_latest,
};

#[test]
fn facts_read_package_manager_name_and_workspaces() {
    let f = package_json_facts(r#"{"name": "pm-app", "packageManager": "pnpm@9.15.0", "workspaces": ["packages/*"]}"#);
    assert_eq!(f.name.as_deref(), Some("pm-app"));
    assert_eq!(f.pm_field.as_deref(), Some("pnpm@9.15.0"));
    assert!(f.has_workspaces);
    let g = package_json_facts(r#"{"name": 3}"#);
    assert!(g.name.is_none() && g.pm_field.is_none() && !g.has_workspaces);
    let h = package_json_facts("not json");
    assert!(h.name.is_none() && !h.has_workspaces);
}

#[test]
fn unreadable_package_json_gives_no_fields() {
    let d = dir_facts_of("/p".to_string(), true, false, false, false, false, None);
    assert!(d.has_pnpm_lock && d.name.is_none() && d.pm_field.is_none() && !d.has_workspaces_field);
}

#[test]
fn dev_dependencies_and_sections() {
    let content = r#"{"dependencies": {"react": "^18"}, "devDependencies": {"vitest": "1", "eslint": "8"}}"#;
    let mut dev = dev_dependency_names(content);
    dev.sort();
    assert_eq!(dev, vec!["eslint".to_string(), "vitest".to_string()]);
    let (deps, _) = dependency_sections(content).unwrap();
    assert_eq!(deps, vec!["react".to_string()]);
    assert!(dependency_sections("{broken").is_none());
    assert!(dev_dependency_names("{broken").is_empty());
}

#[test]
fn installed_version_and_registry_latest() {
    assert_eq!(installed_version_of(r#"{"version": "4.18.2"}"#).as_deref(), Some("4.18.2"));
    assert_eq!(installed_version_of("{}"), None);
    assert_eq!(registry_latest(r#"{"dist-tags": {"latest": "10.2.0"}}"#), Some(Some("10.2.0".to_string())));
    assert_eq!(registry_latest(r#"{"name": "pnpm"}"#), Some(None));
    assert_eq!(registry_latest("<html>"), None);
}
