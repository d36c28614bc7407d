use depup::audit::{join_vulnerabilities, osv_auditable, osv_queries, unique_vuln_ids};
use depup::constants::{metadata_url, npm_package_url};
use depup::filter::{Filter, FilterFlags, KindFilter};
use depup::model::{Dependency, DependencyKind, Ecosystem, Severity, VersionResult, Vulnerability};
use depup::npm::{
    check_pm_latest, detect_package_manager, discover_projects, finish_project_results, is_skipped_dir,
    package_update_results, pm_field_value, pm_update_result, pm_update_target, project_error_result,
    split_tool_versions, yarn_outdated_entry, DirFacts, NpmProject, PackageManager,
};

fn flags() -> FilterFlags {
    FilterFlags {
        outdated: false,
        stable: false,
        managed: false,
        unmanaged: false,
        maven: false,
        npm: false,
        dependencies: false,
        plugins: false,
        dev_deps: false,
        tools: false,
        vulnerable: false,
        severity: None,
        includes: Vec::new(),
        excludes: Vec::new(),
    }
}

#[test]
fn filter_from_flags_priorities() {
    let f = Filter::from_flags(FilterFlags {
        managed: true,
        unmanaged: true,
        maven: true,
        npm: true,
        plugins: true,
        tools: true,
        severity: Some("high".into()),
        includes: vec!["org.*".into()],
        ..flags()
    });
    assert_eq!(f.managed, Some(true));
    assert_eq!(f.ecosystem, Some(Ecosystem::Maven));
    assert_eq!(f.kind, Some(KindFilter::Plugins));
    assert_eq!(f.severity, Some(Severity::High));
    assert_eq!(f.includes, vec!["org.*"]);
    let empty = Filter::from_flags(flags());
    assert_eq!(empty.managed, None);
    assert_eq!(empty.kind, None);
    assert_eq!(Filter::from_flags(FilterFlags { unmanaged: true, ..flags() }).managed, Some(false));
}

#[test]
fn registry_urls() {
    assert_eq!(
        metadata_url("https://repo1.maven.org/maven2/", "org.junit.jupiter", "junit-jupiter"),
        "https://repo1.maven.org/maven2/org/junit/jupiter/junit-jupiter/maven-metadata.xml"
    );
    assert_eq!(npm_package_url("pnpm"), "https://registry.npmjs.org/pnpm");
}

fn dir(path: &str) -> DirFacts {
    DirFacts {
        path: path.into(),
        has_pnpm_lock: false,
        has_npm_lock: false,
        has_yarn_lock: false,
        has_bun_lock: false,
        pm_field: None,
        has_pnpm_workspace: false,
        has_workspaces_field: false,
        name: None,
    }
}

#[test]
fn package_manager_detection_order() {
    assert_eq!(detect_package_manager(&DirFacts { has_npm_lock: true, has_yarn_lock: true, ..dir("/a") }), Some(PackageManager::Npm));
    assert_eq!(detect_package_manager(&DirFacts { has_pnpm_lock: true, has_npm_lock: true, ..dir("/a") }), Some(PackageManager::Pnpm));
    assert_eq!(detect_package_manager(&DirFacts { has_bun_lock: true, ..dir("/a") }), Some(PackageManager::Bun));
    assert_eq!(detect_package_manager(&DirFacts { pm_field: Some("yarn@4.0.0".into()), ..dir("/a") }), Some(PackageManager::Yarn));
    assert_eq!(detect_package_manager(&DirFacts { pm_field: Some("deno@1".into()), ..dir("/a") }), None);
    assert_eq!(detect_package_manager(&dir("/a")), None);
    assert!(is_skipped_dir("node_modules"));
    assert!(is_skipped_dir(".git"));
    assert!(!is_skipped_dir("packages"));
}

#[test]
fn discovery_skips_members_and_bare_dirs() {
    let dirs = vec![
        DirFacts { has_pnpm_lock: true, has_pnpm_workspace: true, name: Some("workspace-root".into()), ..dir("/r") },
        DirFacts { has_pnpm_lock: true, name: Some("member-a".into()), ..dir("/r/packages/member-a") },
        dir("/r/bare"),
        DirFacts { pm_field: Some("pnpm@9.15.0+sha512.abc".into()), ..dir("/other") },
    ];
    let projects = discover_projects(&dirs);
    assert_eq!(projects.len(), 2);
    assert_eq!(projects[0].name, "workspace-root");
    assert_eq!(projects[1].name, "/other");
    assert_eq!(projects[1].package_manager, PackageManager::Pnpm);
    assert_eq!(projects[1].pm_version.as_deref(), Some("9.15.0"));
}

fn npm(name: &str, kind: DependencyKind, latest: &str) -> VersionResult {
    VersionResult::checked(
        Dependency::new(Ecosystem::Npm, kind, name.into(), None, "package.json".into()),
        "1.0.0".into(),
        latest.into(),
        true,
    )
}

#[test]
fn npm_project_results_and_updates() {
    let project = NpmProject { path: "/repo/app".into(), name: "app".into(), package_manager: PackageManager::Pnpm, pm_version: Some("9.0.0".into()) };
    let err = project_error_result(&project, "/repo", "pnpm not found".into());
    assert_eq!(err.dep.source, "app/package.json");
    assert_eq!(err.error_message(), Some("pnpm not found"));

    let pm = check_pm_latest(PackageManager::Pnpm, "9.0.0", "app/package.json", Ok(Some("10.0.0".into())));
    assert!(pm.is_outdated());
    assert_eq!(pm.dep.artifact, "pnpm");
    let none = check_pm_latest(PackageManager::Pnpm, "9.0.0", "app/package.json", Ok(None));
    assert_eq!(none.error_message(), Some("No latest version found for pnpm"));
    let failed = check_pm_latest(PackageManager::Npm, "9.0.0", "package.json", Err("HTTP 500".into()));
    assert_eq!(failed.error_message(), Some("HTTP 500"));

    let sorted = finish_project_results(vec![npm("react", DependencyKind::NpmDep, "2"), npm("axios", DependencyKind::NpmDep, "2")], Some(pm));
    let names: Vec<&str> = sorted.iter().map(|r| r.dep.artifact.as_str()).collect();
    assert_eq!(names, vec!["axios", "pnpm", "react"]);

    let outdated = vec![npm("react", DependencyKind::NpmDep, "19.0.0"), npm("pnpm", DependencyKind::Tool, "10.0.0"), npm("vitest", DependencyKind::NpmDevDep, "2.0.0")];
    let (tools, packages) = split_tool_versions(&outdated);
    assert_eq!(tools.len(), 1);
    assert_eq!(packages.len(), 2);
    let ok = package_update_results(&packages, &Ok(()));
    assert_eq!(ok[0].new_version, "19.0.0");
    assert!(!ok[1].is_error());
    let bad = package_update_results(&packages, &Err("exit 1".into()));
    assert_eq!(bad[1].error_message(), Some("exit 1"));

    let target = pm_update_target(&tools[0]);
    assert_eq!(target.as_deref(), Some("10.0.0"));
    assert_eq!(pm_field_value(PackageManager::Pnpm, "10.0.0"), "pnpm@10.0.0");
    assert!(!pm_update_result(&tools[0], &target, &Ok(())).is_error());
    let no_target = pm_update_result(&tools[0], &None, &Ok(()));
    assert_eq!(no_target.error_message(), Some("No latest version available"));

    let row = vec!["react".to_string(), "18.0.0".into(), "18.3.0".into(), "19.0.0".into(), "deps".into()];
    let (name, entry) = yarn_outdated_entry(&row).unwrap();
    assert_eq!((name.as_str(), entry.current.as_str(), entry.latest.as_str()), ("react", "18.0.0", "19.0.0"));
    assert!(yarn_outdated_entry(&vec!["x".to_string()]).is_none());
}

#[test]
fn osv_queries_and_join() {
    let react = npm("react", DependencyKind::NpmDep, "19.0.0");
    let tool = npm("pnpm", DependencyKind::Tool, "10.0.0");
    let skipped = VersionResult::skipped(Dependency::new(Ecosystem::Npm, DependencyKind::NpmDep, "beta".into(), None, String::new()), "1.0.0-beta".into());
    let auditable = osv_auditable(&vec![react.clone(), tool, skipped, react.clone()]);
    assert_eq!(auditable.len(), 2);
    let qs = osv_queries(&auditable);
    assert_eq!(qs.len(), 1);
    assert_eq!(qs[0].key, "npm:react:1.0.0");
    assert_eq!(qs[0].ecosystem, "npm");
    let answers = vec![(qs[0].key.clone(), vec!["GHSA-1".to_string(), "GHSA-2".to_string(), "GHSA-1".to_string()])];
    assert_eq!(unique_vuln_ids(&answers), vec!["GHSA-1", "GHSA-2"]);
    let details = vec![("GHSA-1".to_string(), Vulnerability::test("GHSA-1", Severity::High))];
    let joined = join_vulnerabilities(&auditable, &answers, &details);
    assert_eq!(joined.len(), 2);
    assert_eq!(joined[0].vulnerabilities.len(), 2);
    assert_eq!(joined[0].vulnerabilities[0].id, "GHSA-1");
    assert_eq!(joined[0].version, "1.0.0");
}

#[test]
fn osv_queries_follow_first_naming_order() {
    let react = npm("react", DependencyKind::NpmDep, "19.0.0");
    let lodash = npm("lodash", DependencyKind::NpmDep, "5.0.0");
    let qs = osv_queries(&vec![react.clone(), lodash, react]);
    let keys: Vec<&str> = qs.iter().map(|q| q.key.as_str()).collect();
    assert_eq!(keys, vec!["npm:react:1.0.0", "npm:lodash:1.0.0"]);
}
