use depup::audit::apply_severity_filter;
use depup::filter::Filter;
use depup::model::{AuditResult, Dependency, DependencyKind, Ecosystem, Severity, Vulnerability};

fn make_audit_result(vulns: Vec<Vulnerability>) -> AuditResult {
    AuditResult {
        dep: Dependency::new(
            Ecosystem::Maven,
            DependencyKind::Dependency,
            "org.example:lib".into(),
            None,
            String::new(),
        ),
        version: "1.0.0".into(),
        vulnerabilities: vulns,
    }
}

#[test]
fn no_severity_filter_returns_all_unchanged() {
    let results = vec![
        make_audit_result(vec![
            Vulnerability::test("V1", Severity::Low),
            Vulnerability::test("V2", Severity::Critical),
        ]),
        make_audit_result(vec![Vulnerability::test("V3", Severity::Medium)]),
    ];
    let filter = Filter::default();
    let filtered = apply_severity_filter(results, &filter);
    assert_eq!(filtered.len(), 2);
    assert_eq!(filtered[0].vulnerabilities.len(), 2);
    assert_eq!(filtered[1].vulnerabilities.len(), 1);
}

#[test]
fn severity_filter_high_removes_low_and_medium() {
    let results = vec![make_audit_result(vec![
        Vulnerability::test("V-LOW", Severity::Low),
        Vulnerability::test("V-MED", Severity::Medium),
        Vulnerability::test("V-HIGH", Severity::High),
        Vulnerability::test("V-CRIT", Severity::Critical),
    ])];
    let filter = Filter {
        severity: Some(Severity::High),
        ..Filter::default()
    };
    let filtered = apply_severity_filter(results, &filter);
    assert_eq!(filtered.len(), 1);
    let vuln_ids: Vec<&str> = filtered[0]
        .vulnerabilities
        .iter()
        .map(|v| v.id.as_str())
        .collect();
    assert_eq!(vuln_ids, vec!["V-HIGH", "V-CRIT"]);
}

#[test]
fn empty_results_returns_empty() {
    let filter = Filter {
        severity: Some(Severity::High),
        ..Filter::default()
    };
    let filtered = apply_severity_filter(Vec::new(), &filter);
    assert!(filtered.is_empty());
}

#[test]
fn result_with_no_vulnerabilities_passes_through() {
    let results = vec![make_audit_result(Vec::new())];
    let filter = Filter {
        severity: Some(Severity::Critical),
        ..Filter::default()
    };
    let filtered = apply_severity_filter(results, &filter);
    assert_eq!(filtered.len(), 1);
    assert!(filtered[0].vulnerabilities.is_empty());
}

#[test]
fn vulnerable_flag_hides_clean_dependencies() {
    let results = vec![
        make_audit_result(Vec::new()),
        make_audit_result(vec![Vulnerability::test("V1", Severity::High)]),
    ];
    let filter = Filter {
        vulnerable: true,
        ..Filter::default()
    };
    let filtered = apply_severity_filter(results, &filter);
    assert_eq!(filtered.len(), 1);
    assert_eq!(filtered[0].vulnerabilities[0].id, "V1");
}

#[test]
fn vulnerable_flag_with_severity_filter() {
    let results = vec![
        make_audit_result(vec![Vulnerability::test("V-LOW", Severity::Low)]),
        make_audit_result(vec![Vulnerability::test("V-CRIT", Severity::Critical)]),
        make_audit_result(Vec::new()),
    ];
    let filter = Filter {
        vulnerable: true,
        severity: Some(Severity::High),
        ..Filter::default()
    };
    let filtered = apply_severity_filter(results, &filter);
    assert_eq!(filtered.len(), 1);
    assert_eq!(filtered[0].vulnerabilities[0].id, "V-CRIT");
}

#[test]
fn severity_filter_drops_results_with_only_below_threshold_vulns() {
    let results = vec![
        make_audit_result(vec![Vulnerability::test("V-LOW", Severity::Low)]),
        make_audit_result(vec![Vulnerability::test("V-CRIT", Severity::Critical)]),
    ];
    let filter = Filter {
        severity: Some(Severity::High),
        ..Filter::default()
    };
    let filtered = apply_severity_filter(results, &filter);
    assert_eq!(filtered.len(), 1);
    assert_eq!(filtered[0].vulnerabilities[0].id, "V-CRIT");
}
