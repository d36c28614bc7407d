//! Project discovery over what the directory walk finds: each directory with a
//! `package.json` as the facts the library decides on.

use depup::npm::{discover_projects, is_skipped_dir, DirFacts, NpmProject, PackageManager};
use depup::package_json::dir_facts_of;

/// A directory whose `package.json` is `{"name": "<name>"}`, without lock files.
fn bare(path: &str, name: &str) -> DirFacts {
    let content = format!(r#"{{"name": "{name}"}}"#);
    dir_facts_of(path.to_string(), false, false, false, false, false, Some(&content))
}

/// A project directory with `package.json` naming `name` and the given lock file.
fn with_lock(path: &str, name: &str, lock_file: &str) -> DirFacts {
    let content = format!(r#"{{"name": "{name}"}}"#);
    let lock = |f: &str| lock_file == f;
    assert!(["pnpm-lock.yaml", "package-lock.json", "yarn.lock", "bun.lock", "bun.lockb"].contains(&lock_file));
    dir_facts_of(
        path.to_string(),
        lock("pnpm-lock.yaml"),
        lock("package-lock.json"),
        lock("yarn.lock"),
        lock("bun.lock") || lock("bun.lockb"),
        false,
        Some(&content),
    )
}

/// The directories a walk from `root` visits: those under a skipped directory
/// name are never entered.
fn walked(root: &str, dirs: Vec<DirFacts>) -> Vec<DirFacts> {
    dirs.into_iter()
        .filter(|d| {
            let rel = d.path.strip_prefix(root).unwrap_or(&d.path);
            !rel.split('/').any(is_skipped_dir)
        })
        .collect()
}

fn discover(root: &str, dirs: Vec<DirFacts>) -> Vec<NpmProject> {
    discover_projects(&walked(root, dirs))
}

#[test]
fn detects_pnpm_by_lockfile() {
    let projects = discover("/tmp/p", vec![with_lock("/tmp/p", "my-app", "pnpm-lock.yaml")]);
    assert_eq!(projects.len(), 1);
    assert_eq!(projects[0].package_manager, PackageManager::Pnpm);
    assert_eq!(projects[0].pm_version, None);
}

#[test]
fn detects_npm_by_lockfile() {
    let projects = discover("/tmp/p", vec![with_lock("/tmp/p", "my-app", "package-lock.json")]);
    assert_eq!(projects.len(), 1);
    assert_eq!(projects[0].package_manager, PackageManager::Npm);
    assert_eq!(projects[0].pm_version, None);
}

#[test]
fn detects_yarn_by_lockfile() {
    let projects = discover("/tmp/p", vec![with_lock("/tmp/p", "my-app", "yarn.lock")]);
    assert_eq!(projects.len(), 1);
    assert_eq!(projects[0].package_manager, PackageManager::Yarn);
}

#[test]
fn detects_bun_by_lockfile() {
    let projects = discover("/tmp/p", vec![with_lock("/tmp/p", "my-app", "bun.lock")]);
    assert_eq!(projects.len(), 1);
    assert_eq!(projects[0].package_manager, PackageManager::Bun);
}

#[test]
fn detects_bun_by_binary_lockfile() {
    let projects = discover("/tmp/p", vec![with_lock("/tmp/p", "my-app", "bun.lockb")]);
    assert_eq!(projects.len(), 1);
    assert_eq!(projects[0].package_manager, PackageManager::Bun);
}

#[test]
fn skips_bare_project_without_lock_or_pm_field() {
    let projects = discover("/tmp/p", vec![bare("/tmp/p", "bare-app")]);
    assert!(projects.is_empty());
}

#[test]
fn discovery_discovers_multiple_projects() {
    let projects = discover(
        "/tmp/p",
        vec![with_lock("/tmp/p/app1", "app1", "pnpm-lock.yaml"), with_lock("/tmp/p/app2", "app2", "package-lock.json")],
    );
    assert_eq!(projects.len(), 2);
}

#[test]
fn skips_pnpm_store() {
    let projects = discover(
        "/tmp/p",
        vec![
            with_lock("/tmp/p", "my-app", "pnpm-lock.yaml"),
            with_lock("/tmp/p/.pnpm-store/v3/some-pkg", "some-pkg", "pnpm-lock.yaml"),
        ],
    );
    assert_eq!(projects.len(), 1);
    assert_eq!(projects[0].name, "my-app");
}

#[test]
fn discovery_skips_node_modules() {
    let projects = discover(
        "/tmp/p",
        vec![
            with_lock("/tmp/p", "my-app", "pnpm-lock.yaml"),
            with_lock("/tmp/p/node_modules/some-dep", "some-dep", "package-lock.json"),
        ],
    );
    assert_eq!(projects.len(), 1);
    assert_eq!(projects[0].name, "my-app");
}
