use depup::model::{
    AuditResult, Dependency, DependencyKind, Ecosystem, Severity, UpdateResult, VersionResult, Vulnerability,
};
use depup::output::{check_message, id_and_aliases, summary_text, update_message, vulnerability_noun};
use depup::summary::{audit_counts, check_counts, group_for_display, legend_kinds, severity_parts, update_counts};

fn make_check_result(artifact: &str, kind: DependencyKind, outdated: bool) -> VersionResult {
    VersionResult::checked(
        Dependency::new(Ecosystem::Maven, kind, artifact.into(), None, String::new()),
        "1.0.0".into(),
        "2.0.0".into(),
        outdated,
    )
}

fn make_update_result(artifact: &str, is_error: bool) -> UpdateResult {
    let check = make_check_result(artifact, DependencyKind::Dependency, true);
    if is_error {
        UpdateResult::error(&check, "write failed".into())
    } else {
        UpdateResult::updated(&check, "2.0.0".into())
    }
}

fn make_audit_result(vulns: Vec<Vulnerability>) -> AuditResult {
    AuditResult {
        dep: Dependency::new(Ecosystem::Maven, DependencyKind::Dependency, "org.example:lib".into(), None, String::new()),
        version: "1.0.0".into(),
        vulnerabilities: vulns,
    }
}

fn make_vuln(id: &str, severity: Severity) -> Vulnerability {
    Vulnerability { id: id.into(), aliases: Vec::new(), summary: String::new(), severity, url: None }
}

#[test]
fn check_counts_of_mixed_results() {
    let results = vec![
        make_check_result("g:a", DependencyKind::Dependency, false),
        make_check_result("g:b", DependencyKind::Dependency, true),
        VersionResult::error(
            Dependency::new(Ecosystem::Maven, DependencyKind::Plugin, "g:c".into(), None, String::new()),
            "1.0".into(),
            "timeout".into(),
        ),
        VersionResult::skipped(
            Dependency::new(Ecosystem::Maven, DependencyKind::Plugin, "g:d".into(), None, String::new()),
            "1.0-beta".into(),
        ),
    ];
    let c = check_counts(&results);
    assert_eq!((c.total, c.current, c.outdated, c.skipped, c.errors), (4, 1, 1, 1, 1));
    let empty = check_counts(&Vec::new());
    assert_eq!((empty.total, empty.current), (0, 0));
}

#[test]
fn update_counts_with_errors() {
    let c = update_counts(&vec![make_update_result("g:a", false), make_update_result("g:b", true)]);
    assert_eq!((c.total, c.errors), (2, 1));
    assert_eq!(update_counts(&Vec::new()).total, 0);
}

#[test]
fn audit_counts_with_vulnerabilities() {
    let results = vec![
        make_audit_result(vec![make_vuln("CVE-1", Severity::Critical), make_vuln("CVE-2", Severity::Low)]),
        make_audit_result(Vec::new()),
    ];
    let c = audit_counts(&results).unwrap();
    assert_eq!((c.total, c.vulnerable, c.clean), (2, 1, 1));
    assert_eq!((c.critical, c.high, c.medium, c.low), (1, 0, 0, 1));
    assert_eq!(severity_parts(&c), vec![(1, Severity::Critical), (1, Severity::Low)]);
    let clean = audit_counts(&vec![make_audit_result(Vec::new()), make_audit_result(Vec::new())]).unwrap();
    assert_eq!((clean.total, clean.vulnerable, clean.clean), (2, 0, 2));
    assert!(severity_parts(&clean).is_empty());
}

#[test]
fn legend_lists_distinct_kinds_in_order() {
    let kinds = vec![DependencyKind::Tool, DependencyKind::Dependency, DependencyKind::Tool, DependencyKind::Plugin];
    assert_eq!(legend_kinds(&kinds), vec![DependencyKind::Dependency, DependencyKind::Plugin, DependencyKind::Tool]);
}

#[test]
fn groups_by_ecosystem_kind_and_artifact() {
    let npm = VersionResult::checked(
        Dependency::new(Ecosystem::Npm, DependencyKind::NpmDep, "react".into(), None, "package.json".into()),
        "18.0.0".into(),
        "19.0.0".into(),
        true,
    );
    let results = vec![
        npm,
        make_check_result("z:z", DependencyKind::Dependency, true),
        make_check_result("p:p", DependencyKind::Plugin, true),
        make_check_result("a:a", DependencyKind::Dependency, true),
    ];
    let groups = group_for_display(&results);
    assert_eq!(groups.len(), 2);
    assert_eq!(groups[0].ecosystem, Ecosystem::Maven);
    assert_eq!(groups[0].kinds.len(), 2);
    assert_eq!(groups[0].kinds[0].kind, DependencyKind::Dependency);
    assert_eq!(groups[0].kinds[0].items, vec![3, 1]);
    assert_eq!(groups[0].kinds[1].items, vec![2]);
    assert_eq!(groups[1].ecosystem, Ecosystem::Npm);
    assert_eq!(groups[1].kinds[0].items, vec![0]);
}

#[test]
fn audit_line_texts() {
    assert_eq!(vulnerability_noun(1), "vulnerability");
    assert_eq!(vulnerability_noun(2), "vulnerabilities");
    let mut v = make_vuln("GHSA-1", Severity::High);
    assert_eq!(id_and_aliases(&v), "GHSA-1");
    assert_eq!(summary_text(&v), "");
    v.aliases = vec!["CVE-1".into(), "CVE-2".into()];
    v.summary = "bad".into();
    assert_eq!(id_and_aliases(&v), "GHSA-1 (CVE-1, CVE-2)");
    assert_eq!(summary_text(&v).chars().count(), 61);
    assert!(summary_text(&v).starts_with(" bad "));
}

#[test]
fn line_messages() {
    let r = make_check_result("g:a", DependencyKind::Dependency, true);
    assert_eq!(check_message(&r), "\u{2192} 2.0.0");
    let r = make_check_result("g:a", DependencyKind::Dependency, false);
    assert_eq!(check_message(&r), "up-to-date");
    assert_eq!(update_message(&make_update_result("g:a", true)), "write failed");
    assert_eq!(update_message(&make_update_result("g:a", false)), "updated");
}
