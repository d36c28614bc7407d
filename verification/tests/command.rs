use depup::command::{
    any_outdated, any_update_failed, audit_exit_code, completion_path, completion_path_for_home, count_npm_projects_with_outdated,
    count_sources, detect_ecosystems, dry_run_preview, is_supported_shell, match_npm_projects, of_ecosystem, select_results,
    shell_from_env, unsupported_shell_message, Selection,
};
use depup::filter::Filter;
use depup::model::{AuditResult, Dependency, DependencyKind, Ecosystem, Severity, UpdateResult, VersionResult, Vulnerability};
use depup::npm::{NpmProject, PackageManager};

#[test]
fn completion_path_fish() {
    let path = completion_path_for_home("/home/user", "fish").unwrap();
    assert_eq!(path, "/home/user/.config/fish/completions/mvnup.fish");
}

#[test]
fn completion_path_zsh() {
    let path = completion_path_for_home("/home/user", "zsh").unwrap();
    assert_eq!(path, "/home/user/.zsh/completions/_mvnup");
}

#[test]
fn completion_path_bash() {
    let path = completion_path_for_home("/home/user", "bash").unwrap();
    assert_eq!(path, "/home/user/.local/share/bash-completion/completions/mvnup");
}

#[test]
fn completion_path_elvish() {
    let path = completion_path_for_home("/home/user", "elvish").unwrap();
    assert_eq!(path, "/home/user/.config/elvish/lib/mvnup.elv");
}

#[test]
fn completion_path_powershell() {
    let path = completion_path_for_home("/home/user", "powershell").unwrap();
    assert_eq!(path, "/home/user/.config/powershell/mvnup.ps1");
}

#[test]
fn completion_path_unsupported_shell_fails() {
    assert!(completion_path_for_home("/home/user", "nushell").is_err());
}

#[test]
fn completion_path_errors() {
    assert_eq!(completion_path_for_home("/home/user", "nushell").unwrap_err(), "Unsupported shell: nushell");
    assert_eq!(completion_path(None, "bash").unwrap_err(), "Could not determine home directory");
    assert_eq!(completion_path(Some("/h"), "zsh").unwrap(), "/h/.zsh/completions/_mvnup");
}

#[test]
fn shell_detection() {
    assert_eq!(shell_from_env(Some("/usr/bin/fish"), false), "fish");
    assert_eq!(shell_from_env(Some("/bin/zsh"), true), "zsh");
    assert_eq!(shell_from_env(Some("/bin/sh"), true), "powershell");
    assert_eq!(shell_from_env(None, false), "bash");
    assert!(is_supported_shell("elvish"));
    assert!(!is_supported_shell("nushell"));
    assert_eq!(
        unsupported_shell_message("nu"),
        "Unsupported shell: 'nu'. Supported shells: bash, zsh, fish, elvish, powershell"
    );
}

fn npm_result(name: &str, source: &str) -> VersionResult {
    VersionResult::checked(
        Dependency::new(Ecosystem::Npm, DependencyKind::NpmDep, name.into(), None, source.into()),
        "1.0.0".into(),
        "2.0.0".into(),
        true,
    )
}

fn npm_project(root: &str, subdir: &str) -> NpmProject {
    NpmProject {
        name: subdir.to_string(),
        path: format!("{}/{}", root, subdir),
        package_manager: PackageManager::Npm,
        pm_version: None,
    }
}

#[test]
fn matches_outdated_to_correct_project() {
    let root = "/repo";
    let projects = vec![npm_project(root, "app-a"), npm_project(root, "app-b")];
    let outdated = vec![npm_result("react", "app-a/package.json"), npm_result("lodash", "app-b/package.json")];
    let matched = match_npm_projects(&projects, root, &outdated);
    assert_eq!(matched.len(), 2);
    assert_eq!(matched[0].0.name, "app-a");
    assert_eq!(matched[0].1.len(), 1);
    assert_eq!(matched[1].0.name, "app-b");
    assert_eq!(matched[1].1.len(), 1);
}

#[test]
fn skips_projects_without_outdated() {
    let root = "/repo";
    let projects = vec![npm_project(root, "app-a"), npm_project(root, "app-b")];
    let outdated = vec![npm_result("react", "app-a/package.json")];
    let matched = match_npm_projects(&projects, root, &outdated);
    assert_eq!(matched.len(), 1);
    assert_eq!(matched[0].0.name, "app-a");
}

#[test]
fn empty_outdated_returns_empty() {
    let root = "/repo";
    let projects = vec![npm_project(root, "app-a")];
    let outdated: Vec<VersionResult> = vec![];
    let matched = match_npm_projects(&projects, root, &outdated);
    assert!(matched.is_empty());
}

#[test]
fn count_matches_len() {
    let root = "/repo";
    let projects = vec![npm_project(root, "app-a"), npm_project(root, "app-b")];
    let outdated = vec![npm_result("react", "app-a/package.json")];
    assert_eq!(count_npm_projects_with_outdated(&projects, root, &outdated), 1);
}

#[test]
fn detect_both_when_pom_exists_and_no_filter() {
    let eco = detect_ecosystems(&Filter::default(), true);
    assert!(eco.maven);
    assert!(eco.npm);
}

#[test]
fn detect_npm_only_when_no_pom() {
    let eco = detect_ecosystems(&Filter::default(), false);
    assert!(!eco.maven);
    assert!(eco.npm);
}

#[test]
fn detect_maven_only_with_maven_filter() {
    let filter = Filter { ecosystem: Some(Ecosystem::Maven), ..Filter::default() };
    let eco = detect_ecosystems(&filter, true);
    assert!(eco.maven);
    assert!(!eco.npm);
}

#[test]
fn detect_npm_only_with_npm_filter() {
    let filter = Filter { ecosystem: Some(Ecosystem::Npm), ..Filter::default() };
    let eco = detect_ecosystems(&filter, true);
    assert!(!eco.maven);
    assert!(eco.npm);
}

#[test]
fn detect_nothing_when_npm_filter_and_no_pom() {
    let filter = Filter { ecosystem: Some(Ecosystem::Npm), ..Filter::default() };
    let eco = detect_ecosystems(&filter, false);
    assert!(!eco.maven);
    assert!(eco.npm);
}

fn result(kind: DependencyKind, artifact: &str, source: &str, outdated: bool) -> VersionResult {
    VersionResult::checked(
        Dependency::new(Ecosystem::Maven, kind, artifact.into(), None, source.into()),
        "1.0".into(),
        "2.0".into(),
        outdated,
    )
}

#[test]
fn selections_follow_the_commands() {
    let results = vec![
        result(DependencyKind::Dependency, "a:a", "pom.xml", true),
        result(DependencyKind::Tool, "nodejs.org", "pom.xml", true),
        result(DependencyKind::Plugin, "p:p", "m/pom.xml", false),
    ];
    let f = Filter::default();
    assert_eq!(select_results(results.clone(), &f, Selection::Check).len(), 3);
    let upd = select_results(results.clone(), &f, Selection::Update);
    assert_eq!(upd.len(), 2);
    let aud = select_results(results.clone(), &f, Selection::Audit);
    assert_eq!(aud.len(), 2);
    assert!(aud.iter().all(|r| r.dep.kind != DependencyKind::Tool));
    assert!(any_outdated(&results));
    assert!(!any_outdated(&vec![results[2].clone()]));
    assert_eq!(count_sources(&results), 2);
    assert_eq!(of_ecosystem(&results, Ecosystem::Npm).len(), 0);
    let preview = dry_run_preview(&upd);
    assert_eq!(preview[0].new_version, "2.0");
    assert!(!any_update_failed(&preview));
    let failed = UpdateResult::error(&results[0], "boom".into());
    assert!(any_update_failed(&vec![failed]));
    let skipped = VersionResult::skipped(Dependency::new(Ecosystem::Maven, DependencyKind::Dependency, "s:s".into(), None, String::new()), "1".into());
    assert_eq!(dry_run_preview(&vec![skipped])[0].new_version, "?");
}

#[test]
fn audit_exit_codes() {
    let dep = Dependency::new(Ecosystem::Maven, DependencyKind::Dependency, "g:a".into(), None, String::new());
    let with = |sev: Severity| AuditResult { dep: dep.clone(), version: "1".into(), vulnerabilities: vec![Vulnerability::test("V", sev)] };
    let clean = AuditResult { dep: dep.clone(), version: "1".into(), vulnerabilities: Vec::new() };
    assert_eq!(audit_exit_code(&vec![clean.clone()]), 0);
    assert_eq!(audit_exit_code(&vec![clean.clone(), with(Severity::Medium)]), 2);
    assert_eq!(audit_exit_code(&vec![with(Severity::Low), with(Severity::High)]), 3);
    assert_eq!(audit_exit_code(&vec![with(Severity::Critical)]), 3);
    assert_eq!(audit_exit_code(&Vec::new()), 0);
}
