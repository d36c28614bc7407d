//! Vulnerability audit logic: OSV records, severity extraction and the
//! `--severity` / `--vulnerable` filtering of audit results.

use vstd::prelude::*;

use crate::filter::Filter;
use crate::model::{
    AuditResult, Dependency, DependencyInfo, Ecosystem, Severity, VersionResult, Vulnerability,
};
use crate::text::{chars_of, str_eq, string_from_chars};

verus! {

/// A vulnerability as returned by the OSV `vulns` endpoint.
#[derive(Debug, Clone)]
pub struct OsvVulnerability {
    pub id: String,
    pub summary: String,
    pub aliases: Vec<String>,
    pub severity: Vec<OsvSeverity>,
    pub references: Vec<OsvReference>,
    pub affected: Vec<OsvAffected>,
}

/// One entry of an OSV record's `severity` list.
#[derive(Debug, Clone)]
pub struct OsvSeverity {
    pub score: Option<String>,
}

/// One entry of an OSV record's `references` list.
#[derive(Debug, Clone)]
pub struct OsvReference {
    pub ref_type: String,
    pub url: String,
}

/// One entry of an OSV record's `affected` list.
#[derive(Debug, Clone)]
pub struct OsvAffected {
    pub ecosystem_specific: Option<OsvEcosystemSpecific>,
    pub database_specific: Option<OsvDatabaseSpecific>,
}

/// The `ecosystem_specific` block of an affected entry.
#[derive(Debug, Clone)]
pub struct OsvEcosystemSpecific {
    pub severity: Option<String>,
}

/// The `database_specific` block of an affected entry.
#[derive(Debug, Clone)]
pub struct OsvDatabaseSpecific {
    pub severity: Option<String>,
}

/// The OSV ecosystem name for an ecosystem.
pub open spec fn spec_osv_ecosystem(ecosystem: Ecosystem) -> Seq<char> {
    match ecosystem {
        Ecosystem::Maven => "Maven"@,
        Ecosystem::Npm => "npm"@,
    }
}

/// The ecosystem name OSV expects (`Maven` or `npm`).
pub fn osv_ecosystem(ecosystem: Ecosystem) -> (s: &'static str)
    ensures
        s@ == spec_osv_ecosystem(ecosystem),
{
    match ecosystem {
        Ecosystem::Maven => "Maven",
        Ecosystem::Npm => "npm",
    }
}

/// The key under which a result's vulnerabilities are looked up:
/// `ecosystem:artifact:version`.
pub open spec fn spec_dep_key(r: VersionResult) -> Seq<char> {
    r.dep.ecosystem.spec_name() + ":"@ + r.dep.artifact@ + ":"@ + r.current_version@
}

/// The lookup key of a result, e.g. `Maven:org.junit:junit:5.10.0`.
pub fn dep_key(r: &VersionResult) -> (k: String)
    ensures
        k@ == spec_dep_key(*r),
{
    let mut k = r.ecosystem().to_string();
    k.append(":");
    k.append(r.artifact());
    k.append(":");
    k.append(r.current_version.as_str());
    k
}

/// The text after the last `/` of a CVSS score, or the whole text when it has none.
pub open spec fn spec_after_last_slash(s: Seq<char>) -> Seq<char>
    decreases s.len(),
{
    if s.len() == 0 {
        s
    } else if s.last() == '/' {
        Seq::empty()
    } else {
        spec_after_last_slash(s.drop_last()).push(s.last())
    }
}

/// The last `/`-separated component of a CVSS vector, where the score is expected.
pub fn score_after_last_slash(s: &str) -> (r: String)
    ensures
        r@ == spec_after_last_slash(s@),
{
    let cs = chars_of(s);
    let mut start: usize = 0;
    let mut i: usize = 0;
    while i < cs.len()
        invariant
            i <= cs@.len(),
            start <= i,
            spec_after_last_slash(cs@.subrange(0, i as int)) == cs@.subrange(start as int, i as int),
        decreases cs@.len() - i,
    {
        let ghost pre = cs@.subrange(0, i as int + 1);
        assert(pre.drop_last() =~= cs@.subrange(0, i as int));
        if cs[i] == '/' {
            start = i + 1;
            assert(cs@.subrange(start as int, i as int + 1) =~= Seq::<char>::empty());
        } else {
            assert(cs@.subrange(start as int, i as int + 1) =~= cs@.subrange(
                start as int,
                i as int,
            ).push(cs@[i as int]));
        }
        i = i + 1;
    }
    assert(cs@.subrange(0, cs@.len() as int) =~= cs@);
    let mut out: Vec<char> = Vec::new();
    let mut j: usize = start;
    while j < cs.len()
        invariant
            start <= j <= cs@.len(),
            out@ == cs@.subrange(start as int, j as int),
        decreases cs@.len() - j,
    {
        out.push(cs[j]);
        j = j + 1;
        assert(out@ =~= cs@.subrange(start as int, j as int));
    }
    string_from_chars(&out)
}

/// The severity named by the first `ecosystem_specific` or `database_specific`
/// label among the affected entries, in order.
pub open spec fn spec_label_severity(affected: Seq<OsvAffected>) -> Option<Severity>
    decreases affected.len(),
{
    if affected.len() == 0 {
        None
    } else {
        let a = affected[0];
        if a.ecosystem_specific is Some && a.ecosystem_specific->0.severity is Some {
            Some(
                Severity::spec_from_upper(
                    crate::text::uppercase_of(a.ecosystem_specific->0.severity->0@),
                ),
            )
        } else if a.database_specific is Some && a.database_specific->0.severity is Some {
            Some(
                Severity::spec_from_upper(
                    crate::text::uppercase_of(a.database_specific->0.severity->0@),
                ),
            )
        } else {
            spec_label_severity(affected.drop_first())
        }
    }
}

/// The first CVSS-derived severity among the entries that carry a score.
pub open spec fn spec_first_cvss(sevs: Seq<OsvSeverity>, cvss: Seq<Option<Severity>>) -> Option<
    Severity,
>
    decreases sevs.len(),
{
    if sevs.len() == 0 || cvss.len() == 0 {
        None
    } else if sevs[0].score is Some && cvss[0] is Some {
        cvss[0]
    } else {
        spec_first_cvss(sevs.drop_first(), cvss.drop_first())
    }
}

/// The severity of an OSV record: the first parseable CVSS score, else the first
/// severity label, else `Unknown`.
pub open spec fn spec_extract_severity(osv: OsvVulnerability, cvss: Seq<Option<Severity>>) -> Severity {
    match spec_first_cvss(osv.severity@, cvss) {
        Some(s) => s,
        None => match spec_label_severity(osv.affected@) {
            Some(s) => s,
            None => Severity::Unknown,
        },
    }
}

/// Determines the severity of an OSV record.
///
/// `cvss[i]` is the severity that the numeric CVSS score of `osv.severity[i]`
/// gives (the score text itself, or its last `/`-separated component), or `None`
/// when neither parses as a number; the numeric thresholds are applied by the caller.
/// Scores come first, in order; then the labels of the affected entries.
pub fn extract_severity(osv: &OsvVulnerability, cvss: &[Option<Severity>]) -> (s: Severity)
    requires
        cvss@.len() == osv.severity@.len(),
    ensures
        s == spec_extract_severity(*osv, cvss@),
{
    assert(osv.severity@.subrange(0, osv.severity@.len() as int) =~= osv.severity@);
    assert(cvss@.subrange(0, cvss@.len() as int) =~= cvss@);
    let mut i: usize = 0;
    while i < osv.severity.len()
        invariant
            cvss@.len() == osv.severity@.len(),
            i <= osv.severity@.len(),
            spec_first_cvss(osv.severity@, cvss@) == spec_first_cvss(
                osv.severity@.subrange(i as int, osv.severity@.len() as int),
                cvss@.subrange(i as int, cvss@.len() as int),
            ),
        decreases osv.severity@.len() - i,
    {
        let ghost s_rest = osv.severity@.subrange(i as int, osv.severity@.len() as int);
        let ghost c_rest = cvss@.subrange(i as int, cvss@.len() as int);
        assert(s_rest.drop_first() =~= osv.severity@.subrange(i as int + 1, osv.severity@.len() as int));
        assert(c_rest.drop_first() =~= cvss@.subrange(i as int + 1, cvss@.len() as int));
        if osv.severity[i].score.is_some() {
            if let Some(sev) = cvss[i] {
                return sev;
            }
        }
        i = i + 1;
    }
    assert(osv.affected@.subrange(0, osv.affected@.len() as int) =~= osv.affected@);
    let mut j: usize = 0;
    while j < osv.affected.len()
        invariant
            j <= osv.affected@.len(),
            spec_first_cvss(osv.severity@, cvss@) is None,
            spec_label_severity(osv.affected@) == spec_label_severity(
                osv.affected@.subrange(j as int, osv.affected@.len() as int),
            ),
        decreases osv.affected@.len() - j,
    {
        let ghost rest = osv.affected@.subrange(j as int, osv.affected@.len() as int);
        assert(rest.drop_first() =~= osv.affected@.subrange(j as int + 1, osv.affected@.len() as int));
        let a = &osv.affected[j];
        if let Some(es) = &a.ecosystem_specific {
            if let Some(label) = &es.severity {
                return Severity::from_str_label(label.as_str());
            }
        }
        if let Some(ds) = &a.database_specific {
            if let Some(label) = &ds.severity {
                return Severity::from_str_label(label.as_str());
            }
        }
        j = j + 1;
    }
    Severity::Unknown
}

/// The url of the first `ADVISORY` or `WEB` reference.
pub open spec fn spec_advisory_url(refs: Seq<OsvReference>) -> Option<String>
    decreases refs.len(),
{
    if refs.len() == 0 {
        None
    } else if refs[0].ref_type@ == "ADVISORY"@ || refs[0].ref_type@ == "WEB"@ {
        Some(refs[0].url)
    } else {
        spec_advisory_url(refs.drop_first())
    }
}

/// The url of the first `ADVISORY` or `WEB` reference.
fn advisory_url(refs: &Vec<OsvReference>) -> (url: Option<String>)
    ensures
        url == spec_advisory_url(refs@),
{
    assert(refs@.subrange(0, refs@.len() as int) =~= refs@);
    let mut i: usize = 0;
    while i < refs.len()
        invariant
            i <= refs@.len(),
            spec_advisory_url(refs@) == spec_advisory_url(refs@.subrange(i as int, refs@.len() as int)),
        decreases refs@.len() - i,
    {
        let ghost rest = refs@.subrange(i as int, refs@.len() as int);
        assert(rest.drop_first() =~= refs@.subrange(i as int + 1, refs@.len() as int));
        let r = &refs[i];
        if str_eq(r.ref_type.as_str(), "ADVISORY") || str_eq(r.ref_type.as_str(), "WEB") {
            return Some(r.url.clone());
        }
        i = i + 1;
    }
    None
}

/// Converts an OSV record into a [`Vulnerability`]; `cvss` is as for [`extract_severity`].
/// The url is that of the first `ADVISORY` or `WEB` reference.
pub fn convert_vulnerability(osv: OsvVulnerability, cvss: &[Option<Severity>]) -> (v: Vulnerability)
    requires
        cvss@.len() == osv.severity@.len(),
    ensures
        v.id == osv.id,
        v.aliases == osv.aliases,
        v.summary == osv.summary,
        v.severity == spec_extract_severity(osv, cvss@),
        v.url == spec_advisory_url(osv.references@),
{
    let severity = extract_severity(&osv, cvss);
    let url = advisory_url(&osv.references);
    Vulnerability { id: osv.id, aliases: osv.aliases, summary: osv.summary, severity, url }
}

} // verus!

verus! {

/// The vulnerabilities of `vulns` that meet the filter's severity threshold, in order.
pub open spec fn spec_keep_severity(vulns: Seq<Vulnerability>, filter: Filter) -> Seq<Vulnerability>
    decreases vulns.len(),
{
    if vulns.len() == 0 {
        Seq::empty()
    } else {
        let rest = spec_keep_severity(vulns.drop_last(), filter);
        if filter.spec_matches_severity(vulns.last().severity) {
            rest.push(vulns.last())
        } else {
            rest
        }
    }
}

/// Keeps the vulnerabilities of `r` that meet the severity threshold, and reports
/// whether `r` had any vulnerability before.
pub fn filter_vulns_by_severity(r: AuditResult, filter: &Filter) -> (out: (AuditResult, bool))
    ensures
        out.1 == (r.vulnerabilities@.len() > 0),
        out.0.dep == r.dep,
        out.0.version == r.version,
        out.0.vulnerabilities@ == spec_keep_severity(r.vulnerabilities@, *filter),
{
    let was_vulnerable = r.is_vulnerable();
    let AuditResult { dep, version, vulnerabilities } = r;
    let ghost all = vulnerabilities@;
    let mut kept: Vec<Vulnerability> = Vec::new();
    let mut rest = crate::text::reverse_vec(vulnerabilities);
    let mut i: usize = 0;
    let n = rest.len();
    while i < n
        invariant
            n == all.len(),
            rest@.len() == n - i,
            forall|k: int| 0 <= k < rest@.len() ==> #[trigger] rest@[k] == all[n - 1 - k],
            i <= n,
            kept@ == spec_keep_severity(all.subrange(0, i as int), *filter),
        decreases n - i,
    {
        let v = rest.pop().unwrap();
        assert(v == all[i as int]);
        let ghost pre = all.subrange(0, i as int + 1);
        assert(pre.drop_last() =~= all.subrange(0, i as int));
        if filter.matches_severity(v.severity) {
            kept.push(v);
        }
        i = i + 1;
    }
    assert(all.subrange(0, n as int) =~= all);
    (AuditResult { dep, version, vulnerabilities: kept }, was_vulnerable)
}

/// Whether a severity-filtered result stays in the output: with `--vulnerable` only
/// results with vulnerabilities left; otherwise also results that had none to begin with.
pub open spec fn spec_should_include(r: AuditResult, was_vulnerable: bool, filter: Filter) -> bool {
    if filter.vulnerable {
        r.vulnerabilities@.len() > 0
    } else {
        r.vulnerabilities@.len() > 0 || !was_vulnerable
    }
}

pub fn should_include(r: &AuditResult, was_vulnerable: bool, filter: &Filter) -> (b: bool)
    ensures
        b == spec_should_include(*r, was_vulnerable, *filter),
{
    if filter.vulnerable {
        r.is_vulnerable()
    } else {
        r.is_vulnerable() || !was_vulnerable
    }
}

/// Whether `r` survives the severity filter.
pub open spec fn spec_should_include_after(r: AuditResult, filter: Filter) -> bool {
    let kept = spec_keep_severity(r.vulnerabilities@, filter);
    if filter.vulnerable {
        kept.len() > 0
    } else {
        kept.len() > 0 || r.vulnerabilities@.len() == 0
    }
}

/// The results that survive the severity filter, in order, each reduced to the
/// vulnerabilities that meet the threshold.
pub open spec fn spec_apply_severity_filter(results: Seq<AuditResult>, filter: Filter) -> Seq<
    (Dependency, Seq<char>, Seq<Vulnerability>),
>
    decreases results.len(),
{
    if results.len() == 0 {
        Seq::empty()
    } else {
        let rest = spec_apply_severity_filter(results.drop_last(), filter);
        let r = results.last();
        if spec_should_include_after(r, filter) {
            rest.push((r.dep, r.version@, spec_keep_severity(r.vulnerabilities@, filter)))
        } else {
            rest
        }
    }
}

/// The identity, version and vulnerabilities of each audit result.
pub open spec fn audit_rows(results: Seq<AuditResult>) -> Seq<(Dependency, Seq<char>, Seq<Vulnerability>)> {
    results.map_values(|r: AuditResult| (r.dep, r.version@, r.vulnerabilities@))
}

/// Applies `--severity` and `--vulnerable` to audit results. Without either the
/// results come back unchanged. Otherwise each result keeps only the vulnerabilities
/// at or above the threshold, and a result is dropped when that leaves it without
/// any although it had some, or, with `--vulnerable`, whenever it is left without any.
pub fn apply_severity_filter(results: Vec<AuditResult>, filter: &Filter) -> (out: Vec<AuditResult>)
    ensures
        (filter.severity is None && !filter.vulnerable) ==> out@ == results@,
        !(filter.severity is None && !filter.vulnerable) ==> audit_rows(out@)
            == spec_apply_severity_filter(results@, *filter),
{
    if filter.severity.is_none() && !filter.vulnerable {
        return results;
    }
    let ghost all = results@;
    let n = results.len();
    let mut rest = crate::text::reverse_vec(results);
    let mut out: Vec<AuditResult> = Vec::new();
    let mut i: usize = 0;
    while i < n
        invariant
            n == all.len(),
            rest@.len() == n - i,
            forall|k: int| 0 <= k < rest@.len() ==> #[trigger] rest@[k] == all[n - 1 - k],
            i <= n,
            audit_rows(out@) == spec_apply_severity_filter(all.subrange(0, i as int), *filter),
        decreases n - i,
    {
        let r = rest.pop().unwrap();
        assert(r == all[i as int]);
        let ghost pre = all.subrange(0, i as int + 1);
        assert(pre.drop_last() =~= all.subrange(0, i as int));
        let (filtered, was_vulnerable) = filter_vulns_by_severity(r, filter);
        if should_include(&filtered, was_vulnerable, filter) {
            let ghost old_out = out@;
            out.push(filtered);
            assert(audit_rows(out@) =~= audit_rows(old_out).push(
                (filtered.dep, filtered.version@, filtered.vulnerabilities@),
            ));
        }
        i = i + 1;
    }
    assert(all.subrange(0, n as int) =~= all);
    out
}

/// Every vulnerability the severity filter keeps meets the threshold, and with
/// `--vulnerable` every result it keeps has at least one.
pub proof fn lemma_severity_filter_keeps_only_threshold(results: Seq<AuditResult>, filter: Filter)
    ensures
        forall|i: int, j: int| 0 <= i < spec_apply_severity_filter(results, filter).len() && 0 <= j < spec_apply_severity_filter(results, filter)[i].2.len()
            ==> filter.spec_matches_severity(#[trigger] spec_apply_severity_filter(results, filter)[i].2[j].severity),
        filter.vulnerable ==> forall|i: int| 0 <= i < spec_apply_severity_filter(results, filter).len()
            ==> (#[trigger] spec_apply_severity_filter(results, filter)[i]).2.len() > 0,
    decreases results.len(),
{
    if results.len() > 0 {
        lemma_severity_filter_keeps_only_threshold(results.drop_last(), filter);
        lemma_keep_severity_meets(results.last().vulnerabilities@, filter);
    }
}

/// Every vulnerability kept by [`spec_keep_severity`] meets the threshold.
proof fn lemma_keep_severity_meets(vulns: Seq<Vulnerability>, filter: Filter)
    ensures
        forall|j: int| 0 <= j < spec_keep_severity(vulns, filter).len() ==> filter.spec_matches_severity(
            (#[trigger] spec_keep_severity(vulns, filter)[j]).severity,
        ),
    decreases vulns.len(),
{
    if vulns.len() > 0 {
        lemma_keep_severity_meets(vulns.drop_last(), filter);
    }
}

/// Without `--vulnerable`, a result that had no vulnerabilities survives the
/// severity filter.
pub proof fn lemma_clean_result_survives(r: AuditResult, filter: Filter)
    requires
        !filter.vulnerable,
        r.vulnerabilities@.len() == 0,
    ensures
        spec_should_include_after(r, filter),
{
}

// ---------------------------------------------------------------------------
// Querying OSV
// ---------------------------------------------------------------------------

/// A result OSV can be asked about: a registry package (no tool version) that
/// was checked without error and has a current version.
pub open spec fn spec_osv_auditable(r: VersionResult) -> bool {
    &&& r.dep.kind != crate::model::DependencyKind::Tool
    &&& !(r.status is Skipped)
    &&& !(r.status is Error)
    &&& r.current_version@.len() > 0
}

/// The results OSV is asked about, in order.
pub fn osv_auditable(results: &Vec<VersionResult>) -> (r: Vec<VersionResult>)
    ensures
        r@ == crate::command::select(results@, |x: VersionResult| spec_osv_auditable(x)),
        r@.len() <= results@.len(),
        forall|x: VersionResult| #[trigger] r@.contains(x) <==> (results@.contains(x) && x.dep.kind != crate::model::DependencyKind::Tool
            && (x.status is UpToDate || x.status is Outdated) && x.current_version@.len() > 0),
{
    proof {
        lemma_osv_auditable_exact(results@, crate::command::select(results@, |x: VersionResult| spec_osv_auditable(x)));
    }
    let ghost all = results@;
    let mut out: Vec<VersionResult> = Vec::new();
    let mut i: usize = 0;
    while i < results.len()
        invariant
            all == results@,
            i <= all.len(),
            out@ == crate::command::select(all.subrange(0, i as int), |x: VersionResult| spec_osv_auditable(x)),
        decreases all.len() - i,
    {
        assert(all.subrange(0, i as int + 1).drop_last() =~= all.subrange(0, i as int));
        let r = &results[i];
        if r.kind() != crate::model::DependencyKind::Tool && !r.is_skipped() && r.error_message().is_none()
            && r.current_version.as_str().unicode_len() > 0 {
            out.push(r.copy());
        }
        i = i + 1;
    }
    assert(all.subrange(0, all.len() as int) =~= all);
    out
}

/// OSV is asked about exactly the checked results that are no tool versions and
/// carry a current version: dependencies, plugins, npm dependencies and npm
/// dev dependencies alike, whether up to date or outdated; never a tool
/// version, a skipped result, an error or a result without a version.
pub proof fn lemma_osv_auditable_exact(results: Seq<VersionResult>, audited: Seq<VersionResult>)
    requires
        audited == crate::command::select(results, |y: VersionResult| spec_osv_auditable(y)),
    ensures
        forall|x: VersionResult| #[trigger] audited.contains(x)
            <==> (results.contains(x) && x.dep.kind != crate::model::DependencyKind::Tool
                && (x.status is UpToDate || x.status is Outdated) && x.current_version@.len() > 0),
        audited.len() <= results.len(),
{
    crate::command::lemma_select_exact(results, |y: VersionResult| spec_osv_auditable(y));
}

/// One query of an OSV batch: the package, its ecosystem and version, with the
/// key its answer is filed under.
#[derive(Debug, Clone)]
pub struct OsvQuery {
    pub key: String,
    pub name: String,
    pub ecosystem: &'static str,
    pub version: String,
}

/// Some query of `qs` has key `k`.
pub open spec fn has_query_key(qs: Seq<OsvQuery>, k: Seq<char>) -> bool {
    exists|j: int| 0 <= j < qs.len() && (#[trigger] qs[j]).key@ == k
}

/// The query of a result.
pub open spec fn query_of(r: VersionResult, q: OsvQuery) -> bool {
    &&& q.key@ == spec_dep_key(r)
    &&& q.name@ == r.dep.artifact@
    &&& q.ecosystem@ == spec_osv_ecosystem(r.dep.ecosystem)
    &&& q.version@ == r.current_version@
}

/// Some result of `deps` is the one query `q` asks about.
pub open spec fn query_has_source(deps: Seq<VersionResult>, q: OsvQuery) -> bool {
    exists|i: int| 0 <= i < deps.len() && query_of(#[trigger] deps[i], q)
}

/// One query per distinct key among the results, for its first result, in order.
pub open spec fn spec_osv_queries_ok(deps: Seq<VersionResult>, qs: Seq<OsvQuery>) -> bool {
    &&& forall|a: int, b: int| 0 <= a < b < qs.len() ==> (#[trigger] qs[a]).key@ != (#[trigger] qs[b]).key@
    &&& forall|i: int| 0 <= i < deps.len() ==> #[trigger] has_query_key(qs, spec_dep_key(deps[i]))
    &&& forall|j: int| 0 <= j < qs.len() ==> #[trigger] query_has_source(deps, qs[j])
}

/// Position `p` of `deps` is the first to name key `k`.
pub open spec fn first_named_at(deps: Seq<VersionResult>, k: Seq<char>, p: int) -> bool {
    &&& 0 <= p < deps.len()
    &&& spec_dep_key(deps[p]) == k
    &&& forall|m: int| 0 <= m < p ==> spec_dep_key(#[trigger] deps[m]) != k
}

/// The queries come in the order the results first name their keys.
pub open spec fn spec_osv_queries_ordered(deps: Seq<VersionResult>, qs: Seq<OsvQuery>) -> bool {
    forall|a: int, b: int, pa: int, pb: int|
        0 <= a < b < qs.len() && #[trigger] first_named_at(deps, qs[a].key@, pa) && #[trigger] first_named_at(deps, qs[b].key@, pb)
            ==> pa < pb
}

proof fn lemma_first_named_prefix(prev: Seq<VersionResult>, sub: Seq<VersionResult>, k: Seq<char>, p: int, m: int)
    requires
        sub.len() == prev.len() + 1,
        forall|j: int| 0 <= j < prev.len() ==> #[trigger] sub[j] == prev[j],
        first_named_at(sub, k, p),
        0 <= m < prev.len(),
        spec_dep_key(prev[m]) == k,
    ensures
        p <= m,
        first_named_at(prev, k, p),
{
    if p > m {
        assert(sub[m] == prev[m]);
    }
    assert forall|j: int| 0 <= j < p implies spec_dep_key(#[trigger] prev[j]) != k by {
        assert(sub[j] == prev[j]);
    }
}

fn find_query(qs: &Vec<OsvQuery>, key: &str) -> (b: bool)
    ensures
        b == has_query_key(qs@, key@),
{
    let mut j: usize = 0;
    while j < qs.len()
        invariant
            j <= qs@.len(),
            forall|m: int| 0 <= m < j ==> qs@[m].key@ != key@,
        decreases qs@.len() - j,
    {
        if str_eq(qs[j].key.as_str(), key) {
            return true;
        }
        j = j + 1;
    }
    false
}

/// The queries to send: one per distinct `ecosystem:artifact:version`, in the
/// order the results first name it.
pub fn osv_queries(deps: &Vec<VersionResult>) -> (qs: Vec<OsvQuery>)
    ensures
        spec_osv_queries_ok(deps@, qs@),
        spec_osv_queries_ordered(deps@, qs@),
{
    let ghost ds = deps@;
    let mut qs: Vec<OsvQuery> = Vec::new();
    let mut i: usize = 0;
    while i < deps.len()
        invariant
            ds == deps@,
            i <= ds.len(),
            spec_osv_queries_ok(ds.subrange(0, i as int), qs@),
            spec_osv_queries_ordered(ds.subrange(0, i as int), qs@),
        decreases ds.len() - i,
    {
        let ghost prev = ds.subrange(0, i as int);
        let ghost before_qs = qs@;
        let r = &deps[i];
        let key = dep_key(r);
        let ghost sub = ds.subrange(0, i as int + 1);
        assert forall|m: int| 0 <= m < i implies #[trigger] sub[m] == ds.subrange(0, i as int)[m] by {}
        if !find_query(&qs, key.as_str()) {
            let ghost before = qs@;
            let q = OsvQuery {
                key,
                name: String::from_str(r.artifact()),
                ecosystem: osv_ecosystem(r.ecosystem()),
                version: r.current_version.clone(),
            };
            qs.push(q);
            proof {
                assert(qs@[before.len() as int] == q);
                assert forall|a: int, b: int| 0 <= a < b < qs@.len() implies (#[trigger] qs@[a]).key@ != (#[trigger] qs@[b]).key@ by {
                    if b == before.len() {
                        assert(qs@[a] == before[a]);
                        if before[a].key@ == q.key@ {
                            assert(has_query_key(before, q.key@));
                        }
                    } else {
                        assert(qs@[a] == before[a] && qs@[b] == before[b]);
                    }
                }
                assert forall|m: int| 0 <= m < sub.len() implies #[trigger] has_query_key(qs@, spec_dep_key(sub[m])) by {
                    if m < i {
                        assert(has_query_key(before, spec_dep_key(ds.subrange(0, i as int)[m])));
                        let j = choose|j: int| 0 <= j < before.len() && (#[trigger] before[j]).key@ == spec_dep_key(ds.subrange(0, i as int)[m]);
                        assert(qs@[j] == before[j]);
                    } else {
                        assert(qs@[before.len() as int].key@ == spec_dep_key(sub[m]));
                    }
                }
                assert forall|j: int| 0 <= j < qs@.len() implies #[trigger] query_has_source(sub, qs@[j]) by {
                    if j < before.len() {
                        assert(query_has_source(ds.subrange(0, i as int), before[j]));
                        let m = choose|m: int| 0 <= m < i && query_of(#[trigger] ds.subrange(0, i as int)[m], before[j]);
                        assert(sub[m] == ds.subrange(0, i as int)[m]);
                        assert(qs@[j] == before[j]);
                        assert(query_of(sub[m], qs@[j]));
                    } else {
                        assert(sub[i as int] == r);
                        assert(query_of(sub[i as int], qs@[j]));
                    }
                }
            }
        } else {
            proof {
                assert forall|m: int| 0 <= m < sub.len() implies #[trigger] has_query_key(qs@, spec_dep_key(sub[m])) by {
                    if m < i {
                        assert(has_query_key(qs@, spec_dep_key(ds.subrange(0, i as int)[m])));
                    }
                }
                assert forall|j: int| 0 <= j < qs@.len() implies #[trigger] query_has_source(sub, qs@[j]) by {
                    assert(query_has_source(ds.subrange(0, i as int), qs@[j]));
                    let m = choose|m: int| 0 <= m < i && query_of(#[trigger] ds.subrange(0, i as int)[m], qs@[j]);
                    assert(sub[m] == ds.subrange(0, i as int)[m]);
                }
            }
        }
        proof {
            let q2 = qs@;
            assert forall|j: int| 0 <= j < prev.len() implies #[trigger] sub[j] == prev[j] by {}
            assert forall|a: int, b: int, pa: int, pb: int|
                0 <= a < b < q2.len() && #[trigger] first_named_at(sub, q2[a].key@, pa) && #[trigger] first_named_at(sub, q2[b].key@, pb)
                implies pa < pb by {
                assert(q2[a] == before_qs[a]);
                assert(query_has_source(prev, before_qs[a]));
                let ma = choose|m: int| 0 <= m < prev.len() && query_of(#[trigger] prev[m], before_qs[a]);
                lemma_first_named_prefix(prev, sub, q2[a].key@, pa, ma);
                if b < before_qs.len() {
                    assert(q2[b] == before_qs[b]);
                    assert(query_has_source(prev, before_qs[b]));
                    let mb = choose|m: int| 0 <= m < prev.len() && query_of(#[trigger] prev[m], before_qs[b]);
                    lemma_first_named_prefix(prev, sub, q2[b].key@, pb, mb);
                    assert(first_named_at(prev, before_qs[a].key@, pa));
                    assert(first_named_at(prev, before_qs[b].key@, pb));
                } else {
                    // The new query: its key is named by no earlier result.
                    if pb < prev.len() {
                        assert(sub[pb] == prev[pb]);
                        assert(has_query_key(before_qs, spec_dep_key(prev[pb])));
                        let j = choose|j: int| 0 <= j < before_qs.len() && (#[trigger] before_qs[j]).key@ == spec_dep_key(prev[pb]);
                        assert(q2[j] == before_qs[j]);
                        assert(q2[j].key@ == q2[b].key@);
                        assert(false);
                    }
                }
            }
        }
        i = i + 1;
    }
    assert(ds.subrange(0, ds.len() as int) =~= ds);
    qs
}

/// The vulnerability ids OSV listed under `key`: those of the first answer
/// filed under it, none where there is no such answer.
pub open spec fn ids_for(answers: Seq<(String, Vec<String>)>, key: Seq<char>) -> Seq<String>
    decreases answers.len(),
{
    if answers.len() == 0 {
        Seq::empty()
    } else if answers[0].0@ == key {
        answers[0].1@
    } else {
        ids_for(answers.drop_first(), key)
    }
}

/// The details fetched for vulnerability `id`: the first fetched record with that id.
pub open spec fn detail_for(details: Seq<(String, Vulnerability)>, id: Seq<char>) -> Option<Vulnerability>
    decreases details.len(),
{
    if details.len() == 0 {
        None
    } else if details[0].0@ == id {
        Some(details[0].1)
    } else {
        detail_for(details.drop_first(), id)
    }
}

/// The vulnerabilities of the ids whose details were fetched, in the order of the ids.
pub open spec fn known_vulns(ids: Seq<String>, details: Seq<(String, Vulnerability)>) -> Seq<Vulnerability>
    decreases ids.len(),
{
    if ids.len() == 0 {
        Seq::empty()
    } else {
        let rest = known_vulns(ids.drop_last(), details);
        match detail_for(details, ids.last()@) {
            Some(v) => rest.push(v),
            None => rest,
        }
    }
}

fn ids_for_exec<'a>(answers: &'a Vec<(String, Vec<String>)>, key: &str) -> (r: Option<&'a Vec<String>>)
    ensures
        match r {
            Some(v) => v@ == ids_for(answers@, key@),
            None => ids_for(answers@, key@) == Seq::<String>::empty(),
        },
{
    let ghost a = answers@;
    let mut i: usize = 0;
    assert(a.skip(0) =~= a);
    while i < answers.len()
        invariant
            a == answers@,
            i <= a.len(),
            ids_for(a, key@) == ids_for(a.skip(i as int), key@),
        decreases a.len() - i,
    {
        assert(a.skip(i as int)[0] == a[i as int]);
        assert(a.skip(i as int).drop_first() =~= a.skip(i as int + 1));
        if str_eq(answers[i].0.as_str(), key) {
            return Some(&answers[i].1);
        }
        i = i + 1;
    }
    None
}

fn detail_for_exec<'a>(details: &'a Vec<(String, Vulnerability)>, id: &str) -> (r: Option<&'a Vulnerability>)
    ensures
        match r {
            Some(v) => detail_for(details@, id@) == Some(*v),
            None => detail_for(details@, id@) is None,
        },
{
    let ghost d = details@;
    let mut i: usize = 0;
    assert(d.skip(0) =~= d);
    while i < details.len()
        invariant
            d == details@,
            i <= d.len(),
            detail_for(d, id@) == detail_for(d.skip(i as int), id@),
        decreases d.len() - i,
    {
        assert(d.skip(i as int)[0] == d[i as int]);
        assert(d.skip(i as int).drop_first() =~= d.skip(i as int + 1));
        if str_eq(details[i].0.as_str(), id) {
            return Some(&details[i].1);
        }
        i = i + 1;
    }
    None
}

/// Two vulnerability records hold the same fields.
pub open spec fn same_vuln(a: Vulnerability, b: Vulnerability) -> bool {
    &&& a.id == b.id
    &&& a.aliases@ == b.aliases@
    &&& a.summary == b.summary
    &&& a.severity == b.severity
    &&& a.url == b.url
}

/// The vulnerabilities `got` hold the same records as `want`, in order.
pub open spec fn same_vulns(got: Seq<Vulnerability>, want: Seq<Vulnerability>) -> bool {
    got.len() == want.len() && forall|m: int| 0 <= m < got.len() ==> same_vuln(#[trigger] got[m], want[m])
}

fn copy_vulnerability(v: &Vulnerability) -> (c: Vulnerability)
    ensures
        same_vuln(c, *v),
{
    let mut aliases: Vec<String> = Vec::new();
    let mut i: usize = 0;
    while i < v.aliases.len()
        invariant
            i <= v.aliases@.len(),
            aliases@ == v.aliases@.subrange(0, i as int),
        decreases v.aliases@.len() - i,
    {
        aliases.push(v.aliases[i].clone());
        i = i + 1;
        assert(aliases@ =~= v.aliases@.subrange(0, i as int));
    }
    assert(v.aliases@.subrange(0, v.aliases@.len() as int) =~= v.aliases@);
    Vulnerability {
        id: v.id.clone(),
        aliases,
        summary: v.summary.clone(),
        severity: v.severity,
        url: crate::model::copy_opt_string(&v.url),
    }
}

/// Joins the audited results with what OSV answered: `answers` files the
/// vulnerability ids listed for each query key, `details` the records fetched
/// per id. Each result gets the vulnerabilities of its key whose details came.
pub fn join_vulnerabilities(
    auditable: &Vec<VersionResult>,
    answers: &Vec<(String, Vec<String>)>,
    details: &Vec<(String, Vulnerability)>,
) -> (r: Vec<AuditResult>)
    ensures
        r@.len() == auditable@.len(),
        forall|i: int| 0 <= i < r@.len() ==> {
            &&& (#[trigger] r@[i]).dep == auditable@[i].dep
            &&& r@[i].version == auditable@[i].current_version
            &&& same_vulns(r@[i].vulnerabilities@, known_vulns(ids_for(answers@, spec_dep_key(auditable@[i])), details@))
        },
{
    let mut out: Vec<AuditResult> = Vec::new();
    let mut i: usize = 0;
    while i < auditable.len()
        invariant
            i <= auditable@.len(),
            out@.len() == i,
            forall|k: int| 0 <= k < i ==> {
                &&& (#[trigger] out@[k]).dep == auditable@[k].dep
                &&& out@[k].version == auditable@[k].current_version
                &&& same_vulns(out@[k].vulnerabilities@, known_vulns(ids_for(answers@, spec_dep_key(auditable@[k])), details@))
            },
        decreases auditable@.len() - i,
    {
        let r = &auditable[i];
        let key = dep_key(r);
        let mut vulns: Vec<Vulnerability> = Vec::new();
        assert(same_vulns(vulns@, Seq::<Vulnerability>::empty()));
        match ids_for_exec(answers, key.as_str()) {
            Some(ids) => {
                let ghost iv = ids@;
                let mut j: usize = 0;
                assert(iv.subrange(0, 0) =~= Seq::<String>::empty());
                while j < ids.len()
                    invariant
                        iv == ids@,
                        j <= iv.len(),
                        same_vulns(vulns@, known_vulns(iv.subrange(0, j as int), details@)),
                    decreases iv.len() - j,
                {
                    assert(iv.subrange(0, j as int + 1).drop_last() =~= iv.subrange(0, j as int));
                    assert(iv.subrange(0, j as int + 1).last() == iv[j as int]);
                    let ghost before = vulns@;
                    match detail_for_exec(details, ids[j].as_str()) {
                        Some(v) => {
                            vulns.push(copy_vulnerability(v));
                            assert forall|m: int| 0 <= m < vulns@.len() implies same_vuln(#[trigger] vulns@[m], known_vulns(iv.subrange(0, j as int + 1), details@)[m]) by {
                                if m < before.len() {
                                    assert(vulns@[m] == before[m]);
                                }
                            }
                        },
                        None => {},
                    }
                    j = j + 1;
                }
                assert(iv.subrange(0, iv.len() as int) =~= iv);
            },
            None => {},
        }
        out.push(AuditResult::from_version_result(r, vulns));
        i = i + 1;
    }
    out
}

/// Some id of `ids` is `x`.
pub open spec fn id_listed(ids: Seq<String>, x: Seq<char>) -> bool {
    exists|k: int| 0 <= k < ids.len() && (#[trigger] ids[k])@ == x
}

/// Some answer lists the id `x`.
pub open spec fn id_answered(answers: Seq<(String, Vec<String>)>, x: Seq<char>) -> bool {
    exists|p: int, q: int| 0 <= p < answers.len() && 0 <= q < answers[p].1@.len() && (#[trigger] answers[p].1@[q])@ == x
}

/// The distinct vulnerability ids of all answers, in order of first appearance.
pub fn unique_vuln_ids(answers: &Vec<(String, Vec<String>)>) -> (ids: Vec<String>)
    ensures
        forall|a: int, b: int| 0 <= a < b < ids@.len() ==> (#[trigger] ids@[a])@ != (#[trigger] ids@[b])@,
        forall|p: int, q: int| 0 <= p < answers@.len() && 0 <= q < answers@[p].1@.len() ==> #[trigger] id_listed(ids@, answers@[p].1@[q]@),
        forall|k: int| 0 <= k < ids@.len() ==> #[trigger] id_answered(answers@, ids@[k]@),
{
    let mut ids: Vec<String> = Vec::new();
    let mut i: usize = 0;
    while i < answers.len()
        invariant
            i <= answers@.len(),
            forall|a: int, b: int| 0 <= a < b < ids@.len() ==> (#[trigger] ids@[a])@ != (#[trigger] ids@[b])@,
            forall|p: int, q: int| 0 <= p < i && 0 <= q < answers@[p].1@.len() ==> #[trigger] id_listed(ids@, answers@[p].1@[q]@),
            forall|k: int| 0 <= k < ids@.len() ==> #[trigger] id_answered(answers@, ids@[k]@),
        decreases answers@.len() - i,
    {
        let list = &answers[i].1;
        let mut j: usize = 0;
        while j < list.len()
            invariant
                i < answers@.len(),
                *list == answers@[i as int].1,
                j <= list@.len(),
                forall|a: int, b: int| 0 <= a < b < ids@.len() ==> (#[trigger] ids@[a])@ != (#[trigger] ids@[b])@,
                forall|p: int, q: int| 0 <= p < i && 0 <= q < answers@[p].1@.len() ==> #[trigger] id_listed(ids@, answers@[p].1@[q]@),
                forall|q: int| 0 <= q < j ==> #[trigger] id_listed(ids@, list@[q]@),
                forall|k: int| 0 <= k < ids@.len() ==> #[trigger] id_answered(answers@, ids@[k]@),
            decreases list@.len() - j,
        {
            let id = &list[j];
            let mut seen = false;
            let mut k: usize = 0;
            while k < ids.len()
                invariant
                    k <= ids@.len(),
                    seen == exists|m: int| 0 <= m < k && (#[trigger] ids@[m])@ == id@,
                decreases ids@.len() - k,
            {
                if str_eq(ids[k].as_str(), id.as_str()) {
                    seen = true;
                }
                k = k + 1;
            }
            let ghost before = ids@;
            if !seen {
                ids.push(id.clone());
                proof {
                    assert(ids@[before.len() as int]@ == id@);
                    assert forall|a: int, b: int| 0 <= a < b < ids@.len() implies (#[trigger] ids@[a])@ != (#[trigger] ids@[b])@ by {
                        if b == before.len() {
                            assert(ids@[a] == before[a]);
                        } else {
                            assert(ids@[a] == before[a] && ids@[b] == before[b]);
                        }
                    }
                    assert forall|x: Seq<char>| id_listed(before, x) implies id_listed(ids@, x) by {
                        let m = choose|m: int| 0 <= m < before.len() && (#[trigger] before[m])@ == x;
                        assert(ids@[m] == before[m]);
                    }
                    assert(id_listed(ids@, id@)) by {
                        assert(ids@[before.len() as int]@ == id@);
                    }
                    assert forall|p: int, q: int| 0 <= p < i && 0 <= q < answers@[p].1@.len() implies #[trigger] id_listed(ids@, answers@[p].1@[q]@) by {
                        assert(id_listed(before, answers@[p].1@[q]@));
                    }
                    assert forall|q: int| 0 <= q < j implies #[trigger] id_listed(ids@, list@[q]@) by {
                        assert(id_listed(before, list@[q]@));
                    }
                    assert forall|m: int| 0 <= m < ids@.len() implies #[trigger] id_answered(answers@, ids@[m]@) by {
                        if m < before.len() {
                            assert(ids@[m] == before[m]);
                            assert(id_answered(answers@, before[m]@));
                        } else {
                            assert(answers@[i as int].1@[j as int] == *id);
                            assert(id_answered(answers@, answers@[i as int].1@[j as int]@));
                        }
                    }
                }
            } else {
                assert(id_listed(ids@, id@));
            }
            assert(list@[j as int] == *id);
            j = j + 1;
        }
        assert forall|p: int, q: int| 0 <= p < i + 1 && 0 <= q < answers@[p].1@.len() implies #[trigger] id_listed(ids@, answers@[p].1@[q]@) by {
            if p == i {
                assert(answers@[p].1@[q] == list@[q]);
            }
        }
        i = i + 1;
    }
    ids
}

} // verus!
