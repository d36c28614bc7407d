//! The text of terminal and JSON output.
//!
//! Column text, version labels and the flat JSON records are computed here;
//! styling and printing are left to the caller.

use vstd::prelude::*;

use crate::model::{
    AuditResult, Dependency, DependencyInfo, DependencyKind, Ecosystem, Severity, UpdateResult, UpdateStatus, VersionResult,
    VersionStatus, Vulnerability,
};
use crate::pom::{opt_view, strings_view};
use crate::text::{all_ascii, ascii_lower, lowercase_of, to_lowercase};

verus! {

/// Width of the artifact column.
pub const ARTIFACT_WIDTH: usize = 40;

/// Width of the version column.
pub const VERSION_WIDTH: usize = 30;

/// Width of the source column.
pub const SOURCE_WIDTH: usize = 25;

/// A version with its property name in parentheses; empty for an empty version.
pub open spec fn spec_format_version(version: Seq<char>, property: Option<Seq<char>>) -> Seq<char> {
    if version.len() == 0 {
        Seq::empty()
    } else {
        match property {
            Some(p) => version + " ("@ + p + ")"@,
            None => version,
        }
    }
}

/// A version with its property name in parentheses (`5.10.0 (version.junit)`);
/// empty for an empty version.
pub fn format_version_with_property(version: &str, property: Option<&str>) -> (s: String)
    ensures
        s@ == spec_format_version(version@, match property {
            Some(p) => Some(p@),
            None => None,
        }),
{
    if version.unicode_len() == 0 {
        return String::new();
    }
    match property {
        Some(p) => {
            let mut s = String::from_str(version);
            s.append(" (");
            s.append(p);
            s.append(")");
            s
        },
        None => String::from_str(version),
    }
}

/// `n` spaces.
pub open spec fn spaces(n: nat) -> Seq<char> {
    Seq::new(n, |i: int| ' ')
}

/// `s` fitted to `width` characters: padded with spaces where shorter, and
/// where longer its first `(width - 1) / 2` and last remaining characters with
/// an ellipsis between them.
pub open spec fn spec_truncate_middle_pad(s: Seq<char>, width: nat) -> Seq<char> {
    if s.len() > width {
        let half = (width - 1) / 2;
        let remainder = width - 1 - half;
        s.subrange(0, half) + seq!['\u{2026}'] + s.subrange(s.len() - remainder, s.len() as int)
    } else {
        s + spaces((width - s.len()) as nat)
    }
}

/// Fits `s` to `width` characters (see [`spec_truncate_middle_pad`]).
pub fn truncate_middle_pad(s: &str, width: usize) -> (r: String)
    requires
        s@.len() > width ==> width > 0,
    ensures
        r@ == spec_truncate_middle_pad(s@, width as nat),
        r@.len() == width,
{
    let v = crate::text::chars_of(s);
    let n = v.len();
    if n > width {
        let half = (width - 1) / 2;
        let remainder = width - 1 - half;
        let mut out: Vec<char> = Vec::new();
        let mut i: usize = 0;
        while i < half
            invariant
                half <= n,
                i <= half,
                n == v@.len(),
                out@ == v@.subrange(0, i as int),
            decreases half - i,
        {
            out.push(v[i]);
            i = i + 1;
            assert(out@ =~= v@.subrange(0, i as int));
        }
        out.push('\u{2026}');
        let start = n - remainder;
        let mut j: usize = start;
        let ghost head = out@;
        while j < n
            invariant
                start <= j <= n,
                n == v@.len(),
                out@ == head + v@.subrange(start as int, j as int),
            decreases n - j,
        {
            out.push(v[j]);
            j = j + 1;
            assert(out@ =~= head + v@.subrange(start as int, j as int));
        }
        crate::text::string_from_chars(out.as_slice())
    } else {
        let mut out = v;
        let ghost orig = out@;
        let mut k: usize = n;
        while k < width
            invariant
                n <= k <= width,
                out@ == orig + spaces((k - n) as nat),
            decreases width - k,
        {
            out.push(' ');
            k = k + 1;
            assert(out@ =~= orig + spaces((k - n) as nat));
        }
        crate::text::string_from_chars(out.as_slice())
    }
}

/// The symbol that marks a kind in tables.
pub open spec fn spec_kind_symbol(kind: DependencyKind) -> Seq<char> {
    match kind {
        DependencyKind::Dependency => "\u{25cf}"@,
        DependencyKind::Plugin => "\u{25a0}"@,
        DependencyKind::Tool => "\u{25b2}"@,
        DependencyKind::NpmDep => "\u{25c6}"@,
        DependencyKind::NpmDevDep => "\u{25c6}"@,
    }
}

/// The symbol that marks a kind in tables.
pub fn kind_symbol(kind: DependencyKind) -> (s: &'static str)
    ensures
        s@ == spec_kind_symbol(kind),
{
    match kind {
        DependencyKind::Dependency => "\u{25cf}",
        DependencyKind::Plugin => "\u{25a0}",
        DependencyKind::Tool => "\u{25b2}",
        DependencyKind::NpmDep => "\u{25c6}",
        DependencyKind::NpmDevDep => "\u{25c6}",
    }
}

/// The heading of a kind's group in tables.
pub open spec fn spec_kind_group_label(kind: DependencyKind) -> Seq<char> {
    match kind {
        DependencyKind::Dependency => "Dependencies"@,
        DependencyKind::Plugin => "Plugins"@,
        DependencyKind::Tool => "Tool Versions"@,
        DependencyKind::NpmDep => "Dependencies"@,
        DependencyKind::NpmDevDep => "Dev Dependencies"@,
    }
}

/// The heading of a kind's group in tables.
pub fn kind_group_label(kind: DependencyKind) -> (s: &'static str)
    ensures
        s@ == spec_kind_group_label(kind),
{
    match kind {
        DependencyKind::Dependency => "Dependencies",
        DependencyKind::Plugin => "Plugins",
        DependencyKind::Tool => "Tool Versions",
        DependencyKind::NpmDep => "Dependencies",
        DependencyKind::NpmDevDep => "Dev Dependencies",
    }
}

/// The text after an audit line's columns: `1 vulnerability` or `n vulnerabilities`.
pub open spec fn spec_vulnerability_noun(count: nat) -> Seq<char> {
    if count == 1 { "vulnerability"@ } else { "vulnerabilities"@ }
}

/// The noun for a number of vulnerabilities.
pub fn vulnerability_noun(count: usize) -> (s: &'static str)
    ensures
        s@ == spec_vulnerability_noun(count as nat),
{
    if count == 1 {
        "vulnerability"
    } else {
        "vulnerabilities"
    }
}

/// The aliases joined with `, `.
pub open spec fn joined(v: Seq<Seq<char>>) -> Seq<char>
    decreases v.len(),
{
    if v.len() == 0 {
        Seq::empty()
    } else if v.len() == 1 {
        v[0]
    } else {
        joined(v.drop_last()) + ", "@ + v.last()
    }
}

/// A vulnerability's id, followed by its aliases in parentheses where it has any.
pub open spec fn spec_id_and_aliases(id: Seq<char>, aliases: Seq<Seq<char>>) -> Seq<char> {
    if aliases.len() == 0 {
        id
    } else {
        id + " ("@ + joined(aliases) + ")"@
    }
}

/// A vulnerability's id with its aliases, as audit lines show it.
pub fn id_and_aliases(v: &Vulnerability) -> (s: String)
    ensures
        s@ == spec_id_and_aliases(v.id@, strings_view(v.aliases@)),
{
    let ghost al = strings_view(v.aliases@);
    if v.aliases.len() == 0 {
        return v.id.clone();
    }
    let mut list = v.aliases[0].clone();
    let mut i: usize = 1;
    assert(al.subrange(0, 1) =~= seq![al[0]]);
    while i < v.aliases.len()
        invariant
            al == strings_view(v.aliases@),
            1 <= i <= al.len(),
            list@ == joined(al.subrange(0, i as int)),
        decreases al.len() - i,
    {
        assert(al.subrange(0, i as int + 1).drop_last() =~= al.subrange(0, i as int));
        assert(al.subrange(0, i as int + 1).last() == v.aliases@[i as int]@);
        list.append(", ");
        list.append(v.aliases[i].as_str());
        i = i + 1;
    }
    assert(al.subrange(0, al.len() as int) =~= al);
    let mut s = v.id.clone();
    s.append(" (");
    s.append(list.as_str());
    s.append(")");
    s
}

/// The summary an audit line shows after a vulnerability's id: nothing for an
/// empty summary, else a space and the summary fitted to 60 characters.
pub open spec fn spec_summary_text(summary: Seq<char>) -> Seq<char> {
    if summary.len() == 0 {
        Seq::empty()
    } else {
        " "@ + spec_truncate_middle_pad(summary, 60)
    }
}

/// The summary text of a vulnerability's line.
pub fn summary_text(v: &Vulnerability) -> (s: String)
    ensures
        s@ == spec_summary_text(v.summary@),
{
    if v.summary.as_str().unicode_len() == 0 {
        return String::new();
    }
    let mut s = String::from_str(" ");
    let t = truncate_middle_pad(v.summary.as_str(), 60);
    s.append(t.as_str());
    s
}

/// The message of a check line: `up-to-date`, the arrow and the latest
/// version, `skipped`, or the error message.
pub open spec fn spec_check_message(s: VersionStatus) -> Seq<char> {
    match s {
        VersionStatus::UpToDate { .. } => "up-to-date"@,
        VersionStatus::Outdated { latest } => "\u{2192} "@ + latest@,
        VersionStatus::Skipped => "skipped"@,
        VersionStatus::Error { message } => message@,
    }
}

/// The message a check line ends with.
pub fn check_message(r: &VersionResult) -> (s: String)
    ensures
        s@ == spec_check_message(r.status),
{
    match &r.status {
        VersionStatus::UpToDate { .. } => String::from_str("up-to-date"),
        VersionStatus::Outdated { latest } => {
            let mut s = String::from_str("\u{2192} ");
            s.append(latest.as_str());
            s
        },
        VersionStatus::Skipped => String::from_str("skipped"),
        VersionStatus::Error { message } => message.clone(),
    }
}

/// The message an update line ends with: `updated`, or the error message.
pub fn update_message(r: &UpdateResult) -> (s: String)
    ensures
        s@ == (match r.status {
            UpdateStatus::Updated => "updated"@,
            UpdateStatus::Error { message } => message@,
        }),
{
    match &r.status {
        UpdateStatus::Updated => String::from_str("updated"),
        UpdateStatus::Error { message } => message.clone(),
    }
}

/// The arrow between an old and a new version.
pub open spec fn arrow() -> Seq<char> {
    " \u{2192} "@
}

/// The version column of the result types.
pub trait OutputLine {
    /// The version with its property name, as tables show it.
    fn version_label(&self) -> String;

    /// The bare version text.
    fn version_value(&self) -> String;
}

fn opt_view_str(p: Option<&str>) -> (r: Option<&str>)
    ensures
        r == p,
{
    p
}

impl OutputLine for VersionResult {
    fn version_label(&self) -> (s: String)
        ensures
            s@ == spec_format_version(self.current_version@, opt_view(self.dep.property)),
    {
        format_version_with_property(self.current_version.as_str(), opt_view_str(self.property()))
    }

    fn version_value(&self) -> (s: String)
        ensures
            s@ == self.current_version@,
    {
        self.current_version.clone()
    }
}

impl OutputLine for UpdateResult {
    fn version_label(&self) -> (s: String)
        ensures
            s@ == spec_format_version(self.old_version@, opt_view(self.dep.property)) + arrow()
                + self.new_version@,
    {
        let mut s = format_version_with_property(self.old_version.as_str(), opt_view_str(self.property()));
        s.append(" \u{2192} ");
        s.append(self.new_version.as_str());
        s
    }

    fn version_value(&self) -> (s: String)
        ensures
            s@ == self.old_version@ + arrow() + self.new_version@,
    {
        let mut s = self.old_version.clone();
        s.append(" \u{2192} ");
        s.append(self.new_version.as_str());
        s
    }
}

impl OutputLine for AuditResult {
    fn version_label(&self) -> (s: String)
        ensures
            s@ == spec_format_version(self.version@, opt_view(self.dep.property)),
    {
        format_version_with_property(self.version.as_str(), opt_view_str(self.property()))
    }

    fn version_value(&self) -> (s: String)
        ensures
            s@ == self.version@,
    {
        self.version.clone()
    }
}

// ---------------------------------------------------------------------------
// JSON records
// ---------------------------------------------------------------------------

/// Common fields of every JSON record.
#[derive(Debug, Clone)]
pub struct JsonBase {
    pub ecosystem: String,
    pub artifact: String,
    pub property: Option<String>,
    pub kind: String,
    pub source: String,
}

impl JsonBase {
    /// The common fields of a result: lower-case ecosystem and kind names, the
    /// artifact, the property and the source.
    pub fn from_result<T: DependencyInfo>(r: &T) -> (b: Self)
        ensures
            b.ecosystem@ == lowercase_of(r.dep_view().ecosystem.spec_name()),
            b.artifact@ == r.dep_view().artifact@,
            opt_view(b.property) == opt_view(r.dep_view().property),
            b.kind@ == lowercase_of(r.dep_view().kind.spec_name()),
            b.source@ == r.dep_view().source@,
            json_base_of(b, r.dep_view()),
    {
        proof {
            lemma_json_ecosystem_name(r.dep_view().ecosystem);
            lemma_json_kind_name(r.dep_view().kind);
        }
        let ecosystem = to_lowercase(r.ecosystem().to_string().as_str());
        let kind = to_lowercase(r.kind().to_string().as_str());
        let property = match r.property() {
            Some(p) => Some(String::from_str(p)),
            None => None,
        };
        JsonBase {
            ecosystem,
            artifact: String::from_str(r.artifact()),
            property,
            kind,
            source: String::from_str(r.source()),
        }
    }
}

/// The ecosystem's name in JSON records: its display name in lower case.
pub open spec fn json_ecosystem_name(e: Ecosystem) -> Seq<char> {
    match e {
        Ecosystem::Maven => "maven"@,
        Ecosystem::Npm => "npm"@,
    }
}

/// The kind's name in JSON records: its display name in lower case.
pub open spec fn json_kind_name(k: DependencyKind) -> Seq<char> {
    match k {
        DependencyKind::Dependency => "dependency"@,
        DependencyKind::Plugin => "plugin"@,
        DependencyKind::Tool => "tool"@,
        DependencyKind::NpmDep => "dependency"@,
        DependencyKind::NpmDevDep => "dev dependency"@,
    }
}

proof fn lemma_json_ecosystem_name(e: Ecosystem)
    ensures
        all_ascii(e.spec_name()),
        ascii_lower(e.spec_name()) == json_ecosystem_name(e),
{
    reveal_strlit("Maven");
    reveal_strlit("maven");
    reveal_strlit("npm");
    assert(ascii_lower("Maven"@) =~= "maven"@);
    assert(ascii_lower("npm"@) =~= "npm"@);
}

proof fn lemma_json_kind_name(k: DependencyKind)
    ensures
        all_ascii(k.spec_name()),
        ascii_lower(k.spec_name()) == json_kind_name(k),
{
    reveal_strlit("Dependency");
    reveal_strlit("dependency");
    reveal_strlit("Plugin");
    reveal_strlit("plugin");
    reveal_strlit("Tool");
    reveal_strlit("tool");
    reveal_strlit("Dev Dependency");
    reveal_strlit("dev dependency");
    assert(ascii_lower("Dependency"@) =~= "dependency"@);
    assert(ascii_lower("Plugin"@) =~= "plugin"@);
    assert(ascii_lower("Tool"@) =~= "tool"@);
    assert(ascii_lower("Dev Dependency"@) =~= "dev dependency"@);
}

/// The severity's name in JSON records: its display name in lower case.
pub open spec fn json_severity_name(s: Severity) -> Seq<char> {
    match s {
        Severity::Critical => "critical"@,
        Severity::High => "high"@,
        Severity::Medium => "medium"@,
        Severity::Low => "low"@,
        Severity::Unknown => "unknown"@,
    }
}

proof fn lemma_json_severity_name(s: Severity)
    ensures
        all_ascii(s.spec_name()),
        ascii_lower(s.spec_name()) == json_severity_name(s),
{
    reveal_strlit("CRITICAL");
    reveal_strlit("critical");
    reveal_strlit("HIGH");
    reveal_strlit("high");
    reveal_strlit("MEDIUM");
    reveal_strlit("medium");
    reveal_strlit("LOW");
    reveal_strlit("low");
    reveal_strlit("UNKNOWN");
    reveal_strlit("unknown");
    assert(ascii_lower("CRITICAL"@) =~= "critical"@);
    assert(ascii_lower("HIGH"@) =~= "high"@);
    assert(ascii_lower("MEDIUM"@) =~= "medium"@);
    assert(ascii_lower("LOW"@) =~= "low"@);
    assert(ascii_lower("UNKNOWN"@) =~= "unknown"@);
}

/// `b` holds the common fields of a result with identity `d`: the ecosystem
/// and kind by their JSON names, the artifact, the property and the source.
pub open spec fn json_base_of(b: JsonBase, d: Dependency) -> bool {
    &&& b.ecosystem@ == json_ecosystem_name(d.ecosystem)
    &&& b.artifact@ == d.artifact@
    &&& opt_view(b.property) == opt_view(d.property)
    &&& b.kind@ == json_kind_name(d.kind)
    &&& b.source@ == d.source@
}

/// Flat JSON record of a check result.
#[derive(Debug, Clone)]
pub struct JsonResult {
    pub base: JsonBase,
    pub current: String,
    pub latest: Option<String>,
    pub status: String,
    pub managed: bool,
    pub error: Option<String>,
}

/// The status word of a check result.
pub open spec fn spec_check_status_word(s: VersionStatus) -> Seq<char> {
    match s {
        VersionStatus::UpToDate { .. } => "up-to-date"@,
        VersionStatus::Outdated { .. } => "outdated"@,
        VersionStatus::Skipped => "skipped"@,
        VersionStatus::Error { .. } => "error"@,
    }
}

impl JsonResult {
    /// The record of a check result.
    pub fn from_check(r: &VersionResult) -> (j: Self)
        ensures
            json_base_of(j.base, r.dep),
            j.current@ == r.current_version@,
            opt_view(j.latest) == r.spec_latest(),
            j.status@ == spec_check_status_word(r.status),
            j.managed == r.dep.property is Some,
            j.error is Some <==> r.status is Error,
            r.status is Error ==> j.error->0@ == r.status->Error_message@,
    {
        let (status, error) = match &r.status {
            VersionStatus::UpToDate { .. } => ("up-to-date", None),
            VersionStatus::Outdated { .. } => ("outdated", None),
            VersionStatus::Skipped => ("skipped", None),
            VersionStatus::Error { message } => ("error", Some(message.clone())),
        };
        let latest = match r.latest_version() {
            Some(l) => Some(String::from_str(l)),
            None => None,
        };
        JsonResult {
            base: JsonBase::from_result(r),
            current: r.current_version.clone(),
            latest,
            status: String::from_str(status),
            managed: r.has_property(),
            error,
        }
    }
}

/// Flat JSON record of an update result.
#[derive(Debug, Clone)]
pub struct UpdateJsonResult {
    pub base: JsonBase,
    pub old_version: String,
    pub new_version: String,
    pub managed: bool,
    pub status: String,
    pub error: Option<String>,
}

impl UpdateJsonResult {
    /// The record of an update result.
    pub fn from_update(r: &UpdateResult) -> (j: Self)
        ensures
            json_base_of(j.base, r.dep),
            j.old_version@ == r.old_version@,
            j.new_version@ == r.new_version@,
            j.managed == r.dep.property is Some,
            j.status@ == (if r.status is Updated { "updated"@ } else { "error"@ }),
            j.error is Some <==> r.status is Error,
            r.status is Error ==> j.error->0@ == r.status->Error_message@,
    {
        let (status, error) = match &r.status {
            UpdateStatus::Updated => ("updated", None),
            UpdateStatus::Error { message } => ("error", Some(message.clone())),
        };
        UpdateJsonResult {
            base: JsonBase::from_result(r),
            old_version: r.old_version.clone(),
            new_version: r.new_version.clone(),
            managed: r.has_property(),
            status: String::from_str(status),
            error,
        }
    }

    /// The record of an update a dry run would make: from the current to the
    /// latest version (empty where the check has none), status `would_update`.
    pub fn would_update(r: &VersionResult) -> (j: Self)
        ensures
            json_base_of(j.base, r.dep),
            j.old_version@ == r.current_version@,
            j.new_version@ == (match r.spec_latest() {
                Some(l) => l,
                None => Seq::<char>::empty(),
            }),
            j.managed == r.dep.property is Some,
            j.status@ == "would_update"@,
            j.error is None,
    {
        let new_version = match r.latest_version() {
            Some(l) => String::from_str(l),
            None => String::new(),
        };
        UpdateJsonResult {
            base: JsonBase::from_result(r),
            old_version: r.current_version.clone(),
            new_version,
            managed: r.has_property(),
            status: String::from_str("would_update"),
            error: None,
        }
    }
}

/// `j` is the record of vulnerability `v`: its id, aliases, summary and URL,
/// and its severity by JSON name.
pub open spec fn vulnerability_json_of(j: VulnerabilityJson, v: Vulnerability) -> bool {
    &&& j.id@ == v.id@
    &&& strings_view(j.aliases@) == strings_view(v.aliases@)
    &&& j.summary@ == v.summary@
    &&& j.severity@ == json_severity_name(v.severity)
    &&& opt_view(j.url) == opt_view(v.url)
}

/// JSON record of a vulnerability.
#[derive(Debug, Clone)]
pub struct VulnerabilityJson {
    pub id: String,
    pub aliases: Vec<String>,
    pub summary: String,
    pub severity: String,
    pub url: Option<String>,
}

fn copy_strings(v: &Vec<String>) -> (r: Vec<String>)
    ensures
        strings_view(r@) == strings_view(v@),
{
    let mut out: Vec<String> = Vec::new();
    let mut i: usize = 0;
    while i < v.len()
        invariant
            i <= v@.len(),
            strings_view(out@) == strings_view(v@).subrange(0, i as int),
        decreases v@.len() - i,
    {
        let ghost before = strings_view(out@);
        out.push(v[i].clone());
        assert(strings_view(out@) =~= before.push(v@[i as int]@));
        assert(strings_view(v@).subrange(0, i as int + 1) =~= strings_view(v@).subrange(0, i as int).push(v@[i as int]@));
        i = i + 1;
    }
    assert(strings_view(v@).subrange(0, v@.len() as int) =~= strings_view(v@));
    out
}

impl VulnerabilityJson {
    /// The record of a vulnerability; the severity in lower case.
    pub fn from_vulnerability(v: &Vulnerability) -> (j: Self)
        ensures
            j.id@ == v.id@,
            strings_view(j.aliases@) == strings_view(v.aliases@),
            j.summary@ == v.summary@,
            j.severity@ == lowercase_of(v.severity.spec_name()),
            opt_view(j.url) == opt_view(v.url),
            vulnerability_json_of(j, *v),
    {
        proof {
            lemma_json_severity_name(v.severity);
        }
        VulnerabilityJson {
            id: v.id.clone(),
            aliases: copy_strings(&v.aliases),
            summary: v.summary.clone(),
            severity: to_lowercase(v.severity.to_string().as_str()),
            url: crate::model::copy_opt_string(&v.url),
        }
    }
}

/// Flat JSON record of an audit result.
#[derive(Debug, Clone)]
pub struct AuditJsonResult {
    pub base: JsonBase,
    pub version: String,
    pub vulnerable: bool,
    pub vulnerabilities: Vec<VulnerabilityJson>,
}

impl AuditJsonResult {
    /// The record of an audit result, with a record per vulnerability.
    pub fn from_audit(r: &AuditResult) -> (j: Self)
        ensures
            json_base_of(j.base, r.dep),
            j.version@ == r.version@,
            j.vulnerable == (r.vulnerabilities@.len() > 0),
            j.vulnerabilities@.len() == r.vulnerabilities@.len(),
            forall|i: int| 0 <= i < j.vulnerabilities@.len() ==> vulnerability_json_of(#[trigger] j.vulnerabilities@[i], r.vulnerabilities@[i]),
    {
        let mut vulns: Vec<VulnerabilityJson> = Vec::new();
        let mut i: usize = 0;
        while i < r.vulnerabilities.len()
            invariant
                i <= r.vulnerabilities@.len(),
                vulns@.len() == i,
                forall|k: int| 0 <= k < i ==> vulnerability_json_of(#[trigger] vulns@[k], r.vulnerabilities@[k]),
            decreases r.vulnerabilities@.len() - i,
        {
            vulns.push(VulnerabilityJson::from_vulnerability(&r.vulnerabilities[i]));
            i = i + 1;
        }
        AuditJsonResult {
            base: JsonBase::from_result(r),
            version: r.version.clone(),
            vulnerable: r.is_vulnerable(),
            vulnerabilities: vulns,
        }
    }
}

} // verus!
