//! Core types shared by every ecosystem and subcommand.
//!
//! - [`Dependency`] identifies a dependency: ecosystem, kind, artifact, optional
//!   version property and the file it came from.
//! - [`VersionStatus`] holds the mutually exclusive outcomes of a version check.
//! - [`VersionResult`] combines a dependency, its current version and a status.
//! - [`AuditResult`] and [`UpdateResult`] carry the outcomes of `audit` and `update`.

use vstd::prelude::*;

verus! {

/// Supported dependency ecosystems.
#[derive(Debug, Clone, Copy, PartialEq, Eq, Structural, PartialOrd, Ord, Hash)]
pub enum Ecosystem {
    Maven,
    Npm,
}

impl Ecosystem {
    /// The display name of the ecosystem.
    pub open spec fn spec_name(self) -> Seq<char> {
        match self {
            Ecosystem::Maven => "Maven"@,
            Ecosystem::Npm => "npm"@,
        }
    }

    /// The display name of the ecosystem (`Maven` or `npm`).
    pub fn to_string(&self) -> (s: String)
        ensures
            s@ == self.spec_name(),
    {
        match self {
            Ecosystem::Maven => String::from_str("Maven"),
            Ecosystem::Npm => String::from_str("npm"),
        }
    }

    /// Position in the declaration order, used for sorting and grouping.
    pub open spec fn spec_rank(self) -> nat {
        match self {
            Ecosystem::Maven => 0,
            Ecosystem::Npm => 1,
        }
    }
}

/// Classifies a dependency for display grouping and styling.
#[derive(Debug, Clone, Copy, PartialEq, Eq, Structural, PartialOrd, Ord, Hash)]
pub enum DependencyKind {
    Dependency,
    Plugin,
    NpmDep,
    NpmDevDep,
    Tool,
}

impl DependencyKind {
    /// The display name of the kind.
    pub open spec fn spec_name(self) -> Seq<char> {
        match self {
            DependencyKind::Dependency => "Dependency"@,
            DependencyKind::Plugin => "Plugin"@,
            DependencyKind::Tool => "Tool"@,
            DependencyKind::NpmDep => "Dependency"@,
            DependencyKind::NpmDevDep => "Dev Dependency"@,
        }
    }

    /// The display name of the kind; npm runtime dependencies read as `Dependency`.
    pub fn to_string(&self) -> (s: String)
        ensures
            s@ == self.spec_name(),
    {
        match self {
            DependencyKind::Dependency => String::from_str("Dependency"),
            DependencyKind::Plugin => String::from_str("Plugin"),
            DependencyKind::Tool => String::from_str("Tool"),
            DependencyKind::NpmDep => String::from_str("Dependency"),
            DependencyKind::NpmDevDep => String::from_str("Dev Dependency"),
        }
    }

    /// Position in the declaration order, used for sorting and grouping.
    pub open spec fn spec_rank(self) -> nat {
        match self {
            DependencyKind::Dependency => 0,
            DependencyKind::Plugin => 1,
            DependencyKind::NpmDep => 2,
            DependencyKind::NpmDevDep => 3,
            DependencyKind::Tool => 4,
        }
    }
}

/// A copy of an optional string that keeps its contents.
pub fn copy_opt_string(s: &Option<String>) -> (r: Option<String>)
    ensures
        r == *s,
{
    match s {
        Some(v) => Some(v.clone()),
        None => None,
    }
}

/// Identity of a dependency: what it is and where it came from.
#[derive(Debug, Clone)]
pub struct Dependency {
    pub ecosystem: Ecosystem,
    pub kind: DependencyKind,
    /// Display name or coordinates: Maven `groupId:artifactId`, npm package name, or tool label.
    pub artifact: String,
    /// Maven version property name (e.g. `version.junit`); `None` for inline Maven
    /// versions, npm packages and tool versions.
    pub property: Option<String>,
    /// Relative path of the file this dependency was found in.
    pub source: String,
}

impl Dependency {
    pub fn new(
        ecosystem: Ecosystem,
        kind: DependencyKind,
        artifact: String,
        property: Option<String>,
        source: String,
    ) -> (d: Self)
        ensures
            d.ecosystem == ecosystem,
            d.kind == kind,
            d.artifact == artifact,
            d.property == property,
            d.source == source,
    {
        Dependency { ecosystem, kind, artifact, property, source }
    }

    /// A field-for-field copy.
    pub fn copy(&self) -> (d: Self)
        ensures
            d == *self,
    {
        Dependency {
            ecosystem: self.ecosystem,
            kind: self.kind,
            artifact: self.artifact.clone(),
            property: copy_opt_string(&self.property),
            source: self.source.clone(),
        }
    }
}

/// Read access to the identity fields of every result type.
pub trait DependencyInfo {
    spec fn dep_view(&self) -> Dependency;

    fn ecosystem(&self) -> (e: Ecosystem)
        ensures
            e == self.dep_view().ecosystem,
    ;

    fn kind(&self) -> (k: DependencyKind)
        ensures
            k == self.dep_view().kind,
    ;

    fn artifact(&self) -> (a: &str)
        ensures
            a@ == self.dep_view().artifact@,
    ;

    fn property(&self) -> (p: Option<&str>)
        ensures
            p is Some <==> self.dep_view().property is Some,
            p is Some ==> p->0@ == self.dep_view().property->0@,
    ;

    fn source(&self) -> (s: &str)
        ensures
            s@ == self.dep_view().source@,
    ;

    fn has_property(&self) -> (b: bool)
        ensures
            b == self.dep_view().property is Some,
    {
        self.property().is_some()
    }
}

/// The `&str` view of an optional owned string.
pub fn opt_as_str(o: &Option<String>) -> (r: Option<&str>)
    ensures
        r is Some <==> o is Some,
        r is Some ==> r->0@ == o->0@,
{
    match o {
        Some(s) => Some(s.as_str()),
        None => None,
    }
}

/// The outcome of checking a dependency version.
#[derive(Debug, Clone)]
pub enum VersionStatus {
    UpToDate { latest: String },
    Outdated { latest: String },
    Skipped,
    Error { message: String },
}

/// Result of checking a single dependency against its registry.
#[derive(Debug, Clone)]
pub struct VersionResult {
    pub dep: Dependency,
    pub current_version: String,
    pub status: VersionStatus,
}

/// The name the `check` command gives a [`VersionResult`].
pub type CheckResult = VersionResult;

/// The name the `check` command gives a [`VersionStatus`].
pub type CheckStatus = VersionStatus;

impl DependencyInfo for VersionResult {
    open spec fn dep_view(&self) -> Dependency {
        self.dep
    }

    fn ecosystem(&self) -> Ecosystem {
        self.dep.ecosystem
    }

    fn kind(&self) -> DependencyKind {
        self.dep.kind
    }

    fn artifact(&self) -> &str {
        self.dep.artifact.as_str()
    }

    fn property(&self) -> Option<&str> {
        opt_as_str(&self.dep.property)
    }

    fn source(&self) -> &str {
        self.dep.source.as_str()
    }
}

impl VersionResult {
    /// The latest version, when the status carries one.
    pub open spec fn spec_latest(self) -> Option<Seq<char>> {
        match self.status {
            VersionStatus::UpToDate { latest } => Some(latest@),
            VersionStatus::Outdated { latest } => Some(latest@),
            _ => None,
        }
    }

    pub fn checked(id: Dependency, current: String, latest: String, is_outdated: bool) -> (r: Self)
        ensures
            r.dep == id,
            r.current_version == current,
            is_outdated ==> r.status == (VersionStatus::Outdated { latest }),
            !is_outdated ==> r.status == (VersionStatus::UpToDate { latest }),
    {
        let status = if is_outdated {
            VersionStatus::Outdated { latest }
        } else {
            VersionStatus::UpToDate { latest }
        };
        VersionResult { dep: id, current_version: current, status }
    }

    pub fn skipped(id: Dependency, current: String) -> (r: Self)
        ensures
            r.dep == id,
            r.current_version == current,
            r.status == VersionStatus::Skipped,
    {
        VersionResult { dep: id, current_version: current, status: VersionStatus::Skipped }
    }

    pub fn error(id: Dependency, current: String, message: String) -> (r: Self)
        ensures
            r.dep == id,
            r.current_version == current,
            r.status == (VersionStatus::Error { message }),
    {
        VersionResult { dep: id, current_version: current, status: VersionStatus::Error { message } }
    }

    /// A field-for-field copy.
    pub fn copy(&self) -> (r: Self)
        ensures
            r == *self,
    {
        let status = match &self.status {
            VersionStatus::UpToDate { latest } => VersionStatus::UpToDate { latest: latest.clone() },
            VersionStatus::Outdated { latest } => VersionStatus::Outdated { latest: latest.clone() },
            VersionStatus::Skipped => VersionStatus::Skipped,
            VersionStatus::Error { message } => VersionStatus::Error { message: message.clone() },
        };
        VersionResult { dep: self.dep.copy(), current_version: self.current_version.clone(), status }
    }

    pub fn is_outdated(&self) -> (b: bool)
        ensures
            b == self.status is Outdated,
    {
        matches!(self.status, VersionStatus::Outdated { .. })
    }

    pub fn is_skipped(&self) -> (b: bool)
        ensures
            b == self.status is Skipped,
    {
        matches!(self.status, VersionStatus::Skipped)
    }

    pub fn error_message(&self) -> (m: Option<&str>)
        ensures
            m is Some <==> self.status is Error,
            m is Some ==> m->0@ == self.status->Error_message@,
    {
        match &self.status {
            VersionStatus::Error { message } => Some(message.as_str()),
            _ => None,
        }
    }

    pub fn latest_version(&self) -> (l: Option<&str>)
        ensures
            l is Some <==> self.spec_latest() is Some,
            l is Some ==> l->0@ == self.spec_latest()->0,
    {
        match &self.status {
            VersionStatus::UpToDate { latest } => Some(latest.as_str()),
            VersionStatus::Outdated { latest } => Some(latest.as_str()),
            _ => None,
        }
    }
}

} // verus!

verus! {

/// CVSS-based severity level for vulnerabilities, lowest first.
#[derive(Debug, Clone, Copy, PartialEq, Eq, Structural, PartialOrd, Ord, Hash)]
pub enum Severity {
    Unknown,
    Low,
    Medium,
    High,
    Critical,
}

impl Severity {
    /// Position in the severity order: `Unknown < Low < Medium < High < Critical`.
    pub open spec fn spec_rank(self) -> nat {
        match self {
            Severity::Unknown => 0,
            Severity::Low => 1,
            Severity::Medium => 2,
            Severity::High => 3,
            Severity::Critical => 4,
        }
    }

    /// Position in the severity order (see [`Severity::spec_rank`]).
    pub fn rank(&self) -> (r: u8)
        ensures
            r == self.spec_rank(),
    {
        match self {
            Severity::Unknown => 0,
            Severity::Low => 1,
            Severity::Medium => 2,
            Severity::High => 3,
            Severity::Critical => 4,
        }
    }

    /// Whether `self` is at least as severe as `other`.
    pub fn at_least(&self, other: &Severity) -> (b: bool)
        ensures
            b == (self.spec_rank() >= other.spec_rank()),
    {
        self.rank() >= other.rank()
    }

    /// The severity named by an upper-cased label.
    pub open spec fn spec_from_upper(u: Seq<char>) -> Severity {
        if u == "CRITICAL"@ {
            Severity::Critical
        } else if u == "HIGH"@ {
            Severity::High
        } else if u == "MEDIUM"@ || u == "MODERATE"@ {
            Severity::Medium
        } else if u == "LOW"@ {
            Severity::Low
        } else {
            Severity::Unknown
        }
    }

    /// Parses from a severity label, ignoring case (`MODERATE` reads as medium).
    pub fn from_str_label(s: &str) -> (r: Severity)
        ensures
            r == Severity::spec_from_upper(crate::text::uppercase_of(s@)),
            crate::text::all_ascii(s@) ==> r == Severity::spec_from_upper(crate::text::ascii_upper(s@)),
    {
        let u = crate::text::to_uppercase(s);
        let u = u.as_str();
        if crate::text::str_eq(u, "CRITICAL") {
            Severity::Critical
        } else if crate::text::str_eq(u, "HIGH") {
            Severity::High
        } else if crate::text::str_eq(u, "MEDIUM") || crate::text::str_eq(u, "MODERATE") {
            Severity::Medium
        } else if crate::text::str_eq(u, "LOW") {
            Severity::Low
        } else {
            Severity::Unknown
        }
    }

    /// The display name of the severity.
    pub open spec fn spec_name(self) -> Seq<char> {
        match self {
            Severity::Critical => "CRITICAL"@,
            Severity::High => "HIGH"@,
            Severity::Medium => "MEDIUM"@,
            Severity::Low => "LOW"@,
            Severity::Unknown => "UNKNOWN"@,
        }
    }

    /// The display name of the severity, upper case.
    pub fn to_string(&self) -> (s: String)
        ensures
            s@ == self.spec_name(),
    {
        match self {
            Severity::Critical => String::from_str("CRITICAL"),
            Severity::High => String::from_str("HIGH"),
            Severity::Medium => String::from_str("MEDIUM"),
            Severity::Low => String::from_str("LOW"),
            Severity::Unknown => String::from_str("UNKNOWN"),
        }
    }
}

/// Labels read back: the display name of every severity, and its name in
/// lower case, parse as that severity.
pub proof fn lemma_severity_label_round_trip(sev: Severity)
    ensures
        crate::text::all_ascii(sev.spec_name()),
        Severity::spec_from_upper(crate::text::ascii_upper(sev.spec_name())) == sev,
        crate::text::all_ascii(crate::text::ascii_lower(sev.spec_name())),
        Severity::spec_from_upper(crate::text::ascii_upper(crate::text::ascii_lower(sev.spec_name()))) == sev,
{
    reveal_strlit("CRITICAL");
    reveal_strlit("HIGH");
    reveal_strlit("MEDIUM");
    reveal_strlit("MODERATE");
    reveal_strlit("LOW");
    reveal_strlit("UNKNOWN");
    let n = sev.spec_name();
    assert(crate::text::ascii_upper(n) =~= n);
    assert(crate::text::ascii_upper(crate::text::ascii_lower(n)) =~= n);
}

/// A single known vulnerability of a dependency.
#[derive(Debug, Clone)]
pub struct Vulnerability {
    pub id: String,
    pub aliases: Vec<String>,
    pub summary: String,
    pub severity: Severity,
    pub url: Option<String>,
}

impl Vulnerability {
    /// A vulnerability with only an id and a severity, the rest empty.
    pub fn test(id: &str, severity: Severity) -> (v: Vulnerability)
        ensures
            v.id@ == id@,
            v.aliases@.len() == 0,
            v.summary@.len() == 0,
            v.severity == severity,
            v.url is None,
    {
        Vulnerability {
            id: String::from_str(id),
            aliases: Vec::new(),
            summary: String::new(),
            severity,
            url: None,
        }
    }
}

/// The highest severity among `vulns`; `Unknown` when there are none.
pub open spec fn spec_max_severity(vulns: Seq<Vulnerability>) -> Severity
    decreases vulns.len(),
{
    if vulns.len() == 0 {
        Severity::Unknown
    } else {
        let rest = spec_max_severity(vulns.drop_last());
        let last = vulns.last().severity;
        if last.spec_rank() >= rest.spec_rank() {
            last
        } else {
            rest
        }
    }
}

/// Result of auditing a single dependency against OSV.
#[derive(Debug, Clone)]
pub struct AuditResult {
    pub dep: Dependency,
    pub version: String,
    pub vulnerabilities: Vec<Vulnerability>,
}

impl DependencyInfo for AuditResult {
    open spec fn dep_view(&self) -> Dependency {
        self.dep
    }

    fn ecosystem(&self) -> Ecosystem {
        self.dep.ecosystem
    }

    fn kind(&self) -> DependencyKind {
        self.dep.kind
    }

    fn artifact(&self) -> &str {
        self.dep.artifact.as_str()
    }

    fn property(&self) -> Option<&str> {
        opt_as_str(&self.dep.property)
    }

    fn source(&self) -> &str {
        self.dep.source.as_str()
    }
}

impl AuditResult {
    pub fn from_version_result(r: &VersionResult, vulnerabilities: Vec<Vulnerability>) -> (a: Self)
        ensures
            a.dep == r.dep,
            a.version == r.current_version,
            a.vulnerabilities == vulnerabilities,
    {
        AuditResult { dep: r.dep.copy(), version: r.current_version.clone(), vulnerabilities }
    }

    /// The highest severity among the vulnerabilities; `Unknown` when there are none.
    pub fn max_severity(&self) -> (s: Severity)
        ensures
            s == spec_max_severity(self.vulnerabilities@),
    {
        let mut best = Severity::Unknown;
        let mut i: usize = 0;
        while i < self.vulnerabilities.len()
            invariant
                i <= self.vulnerabilities@.len(),
                best == spec_max_severity(self.vulnerabilities@.subrange(0, i as int)),
            decreases self.vulnerabilities@.len() - i,
        {
            let s = self.vulnerabilities[i].severity;
            proof {
                let pre = self.vulnerabilities@.subrange(0, i as int + 1);
                assert(pre.drop_last() =~= self.vulnerabilities@.subrange(0, i as int));
            }
            if s.at_least(&best) {
                best = s;
            }
            i = i + 1;
        }
        assert(self.vulnerabilities@.subrange(0, i as int) =~= self.vulnerabilities@);
        best
    }

    pub fn is_vulnerable(&self) -> (b: bool)
        ensures
            b == (self.vulnerabilities@.len() > 0),
    {
        self.vulnerabilities.len() > 0
    }
}

/// The outcome of updating a dependency version.
#[derive(Debug, Clone)]
pub enum UpdateStatus {
    Updated,
    Error { message: String },
}

/// Result of updating a single dependency.
#[derive(Debug, Clone)]
pub struct UpdateResult {
    pub dep: Dependency,
    pub old_version: String,
    pub new_version: String,
    pub status: UpdateStatus,
}

impl DependencyInfo for UpdateResult {
    open spec fn dep_view(&self) -> Dependency {
        self.dep
    }

    fn ecosystem(&self) -> Ecosystem {
        self.dep.ecosystem
    }

    fn kind(&self) -> DependencyKind {
        self.dep.kind
    }

    fn artifact(&self) -> &str {
        self.dep.artifact.as_str()
    }

    fn property(&self) -> Option<&str> {
        opt_as_str(&self.dep.property)
    }

    fn source(&self) -> &str {
        self.dep.source.as_str()
    }
}

impl UpdateResult {
    pub fn updated(check: &VersionResult, new_version: String) -> (u: Self)
        ensures
            u.dep == check.dep,
            u.old_version == check.current_version,
            u.new_version == new_version,
            u.status == UpdateStatus::Updated,
    {
        UpdateResult {
            dep: check.dep.copy(),
            old_version: check.current_version.clone(),
            new_version,
            status: UpdateStatus::Updated,
        }
    }

    /// A failed update; the new version is the check's latest version, or empty.
    pub fn error(check: &VersionResult, message: String) -> (u: Self)
        ensures
            u.dep == check.dep,
            u.old_version == check.current_version,
            u.new_version@ == (match check.spec_latest() {
                Some(l) => l,
                None => Seq::<char>::empty(),
            }),
            u.status == (UpdateStatus::Error { message }),
    {
        let new_version = match check.latest_version() {
            Some(l) => String::from_str(l),
            None => String::new(),
        };
        UpdateResult {
            dep: check.dep.copy(),
            old_version: check.current_version.clone(),
            new_version,
            status: UpdateStatus::Error { message },
        }
    }

    pub fn is_error(&self) -> (b: bool)
        ensures
            b == self.status is Error,
    {
        matches!(self.status, UpdateStatus::Error { .. })
    }

    pub fn error_message(&self) -> (m: Option<&str>)
        ensures
            m is Some <==> self.status is Error,
            m is Some ==> m->0@ == self.status->Error_message@,
    {
        match &self.status {
            UpdateStatus::Error { message } => Some(message.as_str()),
            _ => None,
        }
    }
}

/// The highest severity of a list of vulnerabilities is at least as high as each
/// of theirs, and it is the severity of one of them unless the list is empty.
pub proof fn lemma_max_severity_is_highest(vulns: Seq<Vulnerability>)
    ensures
        forall|i: int| 0 <= i < vulns.len() ==> spec_max_severity(vulns).spec_rank() >= (#[trigger] vulns[i]).severity.spec_rank(),
        vulns.len() == 0 ==> spec_max_severity(vulns) == Severity::Unknown,
        vulns.len() > 0 ==> exists|i: int| 0 <= i < vulns.len() && (#[trigger] vulns[i]).severity == spec_max_severity(vulns),
    decreases vulns.len(),
{
    if vulns.len() > 0 {
        let pre = vulns.drop_last();
        lemma_max_severity_is_highest(pre);
        assert forall|i: int| 0 <= i < vulns.len() implies spec_max_severity(vulns).spec_rank() >= (#[trigger] vulns[i]).severity.spec_rank() by {
            if i < pre.len() {
                assert(vulns[i] == pre[i]);
            }
        }
        let n = vulns.len() - 1;
        if vulns.last().severity.spec_rank() >= spec_max_severity(pre).spec_rank() {
            assert(vulns[n].severity == spec_max_severity(vulns));
        } else {
            let j = choose|j: int| 0 <= j < pre.len() && (#[trigger] pre[j]).severity == spec_max_severity(pre);
            assert(vulns[j] == pre[j]);
        }
    }
}

} // verus!
