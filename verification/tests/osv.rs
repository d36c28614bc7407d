use depup::audit::{
    convert_vulnerability, dep_key, extract_severity, osv_ecosystem, OsvAffected, OsvDatabaseSpecific,
    OsvEcosystemSpecific, OsvReference, OsvSeverity, OsvVulnerability,
};
use depup::model::{Dependency, DependencyKind, Ecosystem, Severity, VersionResult};

#[test]
fn severity_from_string_label() {
    assert_eq!(Severity::from_str_label("CRITICAL"), Severity::Critical);
    assert_eq!(Severity::from_str_label("high"), Severity::High);
    assert_eq!(Severity::from_str_label("Medium"), Severity::Medium);
    assert_eq!(Severity::from_str_label("MODERATE"), Severity::Medium);
    assert_eq!(Severity::from_str_label("low"), Severity::Low);
    assert_eq!(Severity::from_str_label("something"), Severity::Unknown);
}

#[test]
fn severity_ordering() {
    assert!(Severity::Critical > Severity::High);
    assert!(Severity::High > Severity::Medium);
    assert!(Severity::Medium > Severity::Low);
    assert!(Severity::Low > Severity::Unknown);
}

#[test]
fn severity_display() {
    assert_eq!(Severity::Critical.to_string(), "CRITICAL");
    assert_eq!(Severity::High.to_string(), "HIGH");
    assert_eq!(Severity::Medium.to_string(), "MEDIUM");
    assert_eq!(Severity::Low.to_string(), "LOW");
    assert_eq!(Severity::Unknown.to_string(), "UNKNOWN");
}

#[test]
fn osv_ecosystem_mapping() {
    assert_eq!(osv_ecosystem(Ecosystem::Maven), "Maven");
    assert_eq!(osv_ecosystem(Ecosystem::Npm), "npm");
}

#[test]
fn convert_vulnerability_with_cvss() {
    let osv = OsvVulnerability {
        id: "GHSA-test-1234".into(),
        summary: "Test vulnerability".into(),
        aliases: vec!["CVE-2024-1234".into()],
        severity: vec![OsvSeverity {
            score: Some("9.8".into()),
        }],
        references: vec![OsvReference {
            ref_type: "ADVISORY".into(),
            url: "https://example.com/advisory".into(),
        }],
        affected: Vec::new(),
    };

    // The score 9.8 rates Critical on the CVSS scale.
    let vuln = convert_vulnerability(osv, &[Some(Severity::Critical)]);
    assert_eq!(vuln.id, "GHSA-test-1234");
    assert_eq!(vuln.severity, Severity::Critical);
    assert_eq!(vuln.aliases, vec!["CVE-2024-1234"]);
    assert_eq!(vuln.url, Some("https://example.com/advisory".into()));
}

#[test]
fn convert_vulnerability_with_ecosystem_severity() {
    let osv = OsvVulnerability {
        id: "OSV-2024-001".into(),
        summary: "Another vuln".into(),
        aliases: Vec::new(),
        severity: Vec::new(),
        references: Vec::new(),
        affected: vec![OsvAffected {
            ecosystem_specific: Some(OsvEcosystemSpecific {
                severity: Some("HIGH".into()),
            }),
            database_specific: None,
        }],
    };

    let vuln = convert_vulnerability(osv, &[]);
    assert_eq!(vuln.severity, Severity::High);
    assert!(vuln.url.is_none());
}

#[test]
fn convert_vulnerability_unknown_severity() {
    let osv = OsvVulnerability {
        id: "OSV-2024-002".into(),
        summary: String::new(),
        aliases: Vec::new(),
        severity: Vec::new(),
        references: Vec::new(),
        affected: Vec::new(),
    };

    let vuln = convert_vulnerability(osv, &[]);
    assert_eq!(vuln.severity, Severity::Unknown);
}

#[test]
fn dep_key_format() {
    let r = VersionResult::checked(
        Dependency::new(
            Ecosystem::Maven,
            DependencyKind::Dependency,
            "org.junit:junit".into(),
            None,
            String::new(),
        ),
        "5.10.0".into(),
        "5.12.0".into(),
        true,
    );
    assert_eq!(dep_key(&r), "Maven:org.junit:junit:5.10.0");
}

#[test]
fn dep_key_npm_format() {
    let r = VersionResult::checked(
        Dependency::new(
            Ecosystem::Npm,
            DependencyKind::NpmDep,
            "lodash".into(),
            None,
            String::new(),
        ),
        "1.0.0".into(),
        "2.0.0".into(),
        true,
    );
    assert_eq!(dep_key(&r), "npm:lodash:1.0.0");
}

#[test]
fn extract_severity_from_cvss_vector_string() {
    let osv = OsvVulnerability {
        id: "GHSA-vec-test".into(),
        summary: String::new(),
        aliases: Vec::new(),
        severity: vec![OsvSeverity {
            score: Some("CVSS:3.1/AV:N/AC:L/PR:N/UI:N/S:U/C:H/I:H/A:H/9.8".into()),
        }],
        references: Vec::new(),
        affected: Vec::new(),
    };
    // The vector's trailing score 9.8 rates Critical on the CVSS scale.
    assert_eq!(extract_severity(&osv, &[Some(Severity::Critical)]), Severity::Critical);
}

#[test]
fn convert_vulnerability_with_database_specific_severity() {
    let osv = OsvVulnerability {
        id: "OSV-DB-001".into(),
        summary: "DB-specific vuln".into(),
        aliases: Vec::new(),
        severity: Vec::new(),
        references: Vec::new(),
        affected: vec![OsvAffected {
            ecosystem_specific: None,
            database_specific: Some(OsvDatabaseSpecific {
                severity: Some("MEDIUM".into()),
            }),
        }],
    };

    let vuln = convert_vulnerability(osv, &[]);
    assert_eq!(vuln.severity, Severity::Medium);
}

#[test]
fn convert_vulnerability_with_web_reference() {
    let osv = OsvVulnerability {
        id: "OSV-WEB-001".into(),
        summary: "Web ref vuln".into(),
        aliases: Vec::new(),
        severity: vec![OsvSeverity {
            score: Some("7.5".into()),
        }],
        references: vec![OsvReference {
            ref_type: "WEB".into(),
            url: "https://example.com/web-advisory".into(),
        }],
        affected: Vec::new(),
    };

    // The score 7.5 rates High on the CVSS scale.
    let vuln = convert_vulnerability(osv, &[Some(Severity::High)]);
    assert_eq!(vuln.severity, Severity::High);
    assert_eq!(vuln.url, Some("https://example.com/web-advisory".into()));
}
