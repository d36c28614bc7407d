use depup::filter::{Filter, KindFilter};
use depup::glob::glob_matches;
use depup::model::{Dependency, DependencyKind, Ecosystem, Severity, VersionResult};

fn checked(eco: Ecosystem, kind: DependencyKind, artifact: &str, prop: Option<&str>, cur: &str, latest: &str) -> VersionResult {
    VersionResult::checked(
        Dependency::new(eco, kind, artifact.into(), prop.map(String::from), String::new()),
        cur.into(),
        latest.into(),
        true,
    )
}

fn maven_dep(has_prop: bool) -> VersionResult {
    let property = if has_prop { Some("version.junit") } else { None };
    checked(Ecosystem::Maven, DependencyKind::Dependency, "org.junit:junit", property, "5.10.0", "5.12.0")
}

fn maven_plugin() -> VersionResult {
    checked(
        Ecosystem::Maven,
        DependencyKind::Plugin,
        "org.apache.maven.plugins:maven-compiler-plugin",
        Some("version.compiler"),
        "3.11.0",
        "3.13.0",
    )
}

fn npm_dep() -> VersionResult {
    checked(Ecosystem::Npm, DependencyKind::NpmDep, "react", None, "18.0.0", "19.0.0")
}

fn npm_dev_dep() -> VersionResult {
    checked(Ecosystem::Npm, DependencyKind::NpmDevDep, "vitest", None, "1.0.0", "2.0.0")
}

fn tool_version_result() -> VersionResult {
    checked(Ecosystem::Maven, DependencyKind::Tool, "nodejs.org", None, "20.0.0", "22.0.0")
}

fn no_filters() {
    let f = Filter::default();
    assert!(f.matches(&maven_dep(true)));
    assert!(f.matches(&maven_dep(false)));
    assert!(f.matches(&maven_plugin()));
    assert!(f.matches(&npm_dep()));
    assert!(f.matches(&npm_dev_dep()));
    assert!(f.matches(&tool_version_result()));
}

fn outdated() {
    let f = Filter { outdated: true, ..Filter::default() };
    assert!(f.matches(&maven_dep(true)));
    let up_to_date = VersionResult::checked(
        Dependency::new(Ecosystem::Maven, DependencyKind::Dependency, "p".into(), None, String::new()),
        "1.0".into(),
        "1.0".into(),
        false,
    );
    assert!(!f.matches(&up_to_date));
}

fn stable() {
    let f = Filter { stable: true, ..Filter::default() };
    let skipped = VersionResult::skipped(
        Dependency::new(Ecosystem::Maven, DependencyKind::Dependency, "p".into(), None, String::new()),
        "1.0-alpha".into(),
    );
    assert!(!f.matches(&skipped));
    assert!(f.matches(&maven_dep(true)));
}

fn managed() {
    let f = Filter { managed: Some(true), ..Filter::default() };
    assert!(f.matches(&maven_dep(true)));
    assert!(!f.matches(&maven_dep(false)));
    assert!(f.matches(&npm_dep()));
}

fn unmanaged() {
    let f = Filter { managed: Some(false), ..Filter::default() };
    assert!(!f.matches(&maven_dep(true)));
    assert!(f.matches(&maven_dep(false)));
    assert!(f.matches(&npm_dep()));
}

fn ecosystem() {
    let maven_only = Filter { ecosystem: Some(Ecosystem::Maven), ..Filter::default() };
    assert!(maven_only.matches(&maven_dep(true)));
    assert!(!maven_only.matches(&npm_dep()));
    let npm_only = Filter { ecosystem: Some(Ecosystem::Npm), ..Filter::default() };
    assert!(!npm_only.matches(&maven_dep(true)));
    assert!(npm_only.matches(&npm_dep()));
}

fn kind_dependencies() {
    let f = Filter { kind: Some(KindFilter::Dependencies), ..Filter::default() };
    assert!(f.matches(&maven_dep(true)));
    assert!(f.matches(&npm_dep()));
    assert!(!f.matches(&maven_plugin()));
    assert!(!f.matches(&npm_dev_dep()));
    assert!(!f.matches(&tool_version_result()));
}

fn kind_plugins() {
    let f = Filter { kind: Some(KindFilter::Plugins), ..Filter::default() };
    assert!(f.matches(&maven_plugin()));
    assert!(!f.matches(&maven_dep(true)));
    assert!(!f.matches(&npm_dep()));
}

fn kind_dev_deps() {
    let f = Filter { kind: Some(KindFilter::DevDeps), ..Filter::default() };
    assert!(f.matches(&npm_dev_dep()));
    assert!(!f.matches(&npm_dep()));
    assert!(!f.matches(&maven_dep(true)));
}

fn kind_tools() {
    let f = Filter { kind: Some(KindFilter::Tools), ..Filter::default() };
    assert!(f.matches(&tool_version_result()));
    assert!(!f.matches(&maven_dep(true)));
    assert!(!f.matches(&npm_dep()));
}

fn composable() {
    let f = Filter {
        ecosystem: Some(Ecosystem::Maven),
        kind: Some(KindFilter::Dependencies),
        managed: Some(true),
        outdated: true,
        stable: false,
        ..Filter::default()
    };
    assert!(f.matches(&maven_dep(true)));
    assert!(!f.matches(&maven_dep(false)));
    assert!(!f.matches(&maven_plugin()));
    assert!(!f.matches(&npm_dep()));
}

#[test]
fn filter_no_filters_passes_everything() {
    no_filters();
}
#[test]
fn filter_outdated_filter() {
    outdated();
}
#[test]
fn filter_stable_filter_excludes_skipped() {
    stable();
}
#[test]
fn filter_managed_filter() {
    managed();
}
#[test]
fn filter_unmanaged_filter() {
    unmanaged();
}
#[test]
fn filter_ecosystem_filter() {
    ecosystem();
}
#[test]
fn filter_kind_filter_dependencies() {
    kind_dependencies();
}
#[test]
fn filter_kind_filter_plugins() {
    kind_plugins();
}
#[test]
fn filter_kind_filter_dev_deps() {
    kind_dev_deps();
}
#[test]
fn filter_kind_filter_tool_versions() {
    kind_tools();
}
#[test]
fn filter_composable_filters() {
    composable();
}
#[test]
fn mod_no_filters_passes_everything() {
    no_filters();
}
#[test]
fn mod_outdated_filter() {
    outdated();
}
#[test]
fn mod_stable_filter_excludes_skipped() {
    stable();
}
#[test]
fn mod_managed_filter() {
    managed();
}
#[test]
fn mod_unmanaged_filter() {
    unmanaged();
}
#[test]
fn mod_ecosystem_filter() {
    ecosystem();
}
#[test]
fn mod_kind_filter_dependencies() {
    kind_dependencies();
}
#[test]
fn mod_kind_filter_plugins() {
    kind_plugins();
}
#[test]
fn mod_kind_filter_dev_deps() {
    kind_dev_deps();
}
#[test]
fn mod_kind_filter_tool_versions() {
    kind_tools();
}
#[test]
fn mod_composable_filters() {
    composable();
}

#[test]
fn include_filter() {
    let f = Filter { includes: vec!["org.junit:*".into()], ..Filter::default() };
    assert!(f.matches(&maven_dep(true)));
    assert!(!f.matches(&maven_plugin()));
    assert!(!f.matches(&npm_dep()));
}

#[test]
fn include_multiple_patterns() {
    let f = Filter { includes: vec!["org.junit:*".into(), "react".into()], ..Filter::default() };
    assert!(f.matches(&maven_dep(true)));
    assert!(f.matches(&npm_dep()));
    assert!(!f.matches(&maven_plugin()));
}

#[test]
fn exclude_filter() {
    let f = Filter { excludes: vec!["org.junit:*".into()], ..Filter::default() };
    assert!(!f.matches(&maven_dep(true)));
    assert!(f.matches(&maven_plugin()));
    assert!(f.matches(&npm_dep()));
}

#[test]
fn include_then_exclude() {
    let f = Filter {
        includes: vec!["org.*:*".into()],
        excludes: vec!["*:junit".into()],
        ..Filter::default()
    };
    assert!(!f.matches(&maven_dep(true)));
    assert!(f.matches(&maven_plugin()));
    assert!(!f.matches(&npm_dep()));
}

#[test]
fn severity_threshold_is_inclusive() {
    let f = Filter { severity: Some(Severity::High), ..Filter::default() };
    assert!(f.matches_severity(Severity::High));
    assert!(f.matches_severity(Severity::Critical));
    assert!(!f.matches_severity(Severity::Medium));
    assert!(Filter::default().matches_severity(Severity::Unknown));
}

#[test]
fn glob_exact_match() {
    assert!(glob_matches("org.junit:junit", "org.junit:junit"));
    assert!(!glob_matches("org.junit:junit", "org.junit:junit-bom"));
}

#[test]
fn glob_trailing_wildcard() {
    assert!(glob_matches("org.junit:*", "org.junit:junit"));
    assert!(glob_matches("org.junit:*", "org.junit:junit-bom"));
    assert!(!glob_matches("org.junit:*", "org.mockito:mockito-core"));
}

#[test]
fn glob_leading_wildcard() {
    assert!(glob_matches("*:core", "org.example:core"));
    assert!(!glob_matches("*:core", "org.example:core-api"));
}

#[test]
fn glob_both_wildcards() {
    assert!(glob_matches("*:junit*", "org.junit:junit"));
    assert!(glob_matches("*:junit*", "org.junit:junit-bom"));
    assert!(!glob_matches("*:junit*", "org.junit:mockito"));
}

#[test]
fn glob_match_all() {
    assert!(glob_matches("*", "anything"));
    assert!(glob_matches("*:*", "org.junit:junit"));
}

#[test]
fn glob_middle_wildcard() {
    assert!(glob_matches("org.*:core", "org.example:core"));
    assert!(glob_matches("org.*:core", "org.wildfly:core"));
    assert!(!glob_matches("org.*:core", "com.example:core"));
}

#[test]
fn glob_npm_packages() {
    assert!(glob_matches("react*", "react"));
    assert!(glob_matches("react*", "react-dom"));
    assert!(!glob_matches("react*", "preact"));
    assert!(glob_matches("@scope/*", "@scope/utils"));
}

#[test]
fn glob_empty_pattern_matches_only_empty_text() {
    assert!(glob_matches("", ""));
    assert!(!glob_matches("", "a"));
    assert!(glob_matches("*", ""));
}
