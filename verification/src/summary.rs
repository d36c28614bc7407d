//! What the tables and summary lines show, before any styling: the counts of
//! each outcome, the kinds that the legend lists, and the order in which the
//! results are grouped (by ecosystem, then kind, then artifact).

use vstd::prelude::*;

use crate::discovery::{seq_le, str_le_exec};
use crate::sorting::{by_key, insert_by, insertion_sort, lemma_insertion_sort, lemma_key_order_total};
use crate::model::{AuditResult, Dependency, DependencyInfo, DependencyKind, Ecosystem, Severity, UpdateResult, VersionResult, Vulnerability};

verus! {

// ---------------------------------------------------------------------------
// Counts
// ---------------------------------------------------------------------------

/// How many elements of `s` satisfy `p`.
pub open spec fn count_where<T>(s: Seq<T>, p: spec_fn(T) -> bool) -> nat
    decreases s.len(),
{
    if s.len() == 0 {
        0
    } else {
        count_where(s.drop_last(), p) + if p(s.last()) {
            1nat
        } else {
            0nat
        }
    }
}

proof fn lemma_count_where_le<T>(s: Seq<T>, p: spec_fn(T) -> bool)
    ensures
        count_where(s, p) <= s.len(),
    decreases s.len(),
{
    if s.len() > 0 {
        lemma_count_where_le(s.drop_last(), p);
    }
}

/// The counts of a `check` run.
#[derive(Debug, Clone, Copy)]
pub struct CheckCounts {
    pub total: usize,
    pub current: usize,
    pub outdated: usize,
    pub skipped: usize,
    pub errors: usize,
}

pub open spec fn is_outdated_result(r: VersionResult) -> bool {
    r.status is Outdated
}

pub open spec fn is_skipped_result(r: VersionResult) -> bool {
    r.status is Skipped
}

pub open spec fn is_error_result(r: VersionResult) -> bool {
    r.status is Error
}

pub open spec fn is_current_result(r: VersionResult) -> bool {
    r.status is UpToDate
}

/// The four outcomes split the results: their counts add up to the total.
proof fn lemma_outcomes_partition(s: Seq<VersionResult>)
    ensures
        count_where(s, |r: VersionResult| is_outdated_result(r)) + count_where(s, |r: VersionResult| is_skipped_result(r))
            + count_where(s, |r: VersionResult| is_error_result(r)) + count_where(s, |r: VersionResult| is_current_result(r))
            == s.len(),
    decreases s.len(),
{
    if s.len() > 0 {
        lemma_outcomes_partition(s.drop_last());
    }
}

/// Counts the outcomes of checked results: in total, outdated, skipped, failed,
/// and current (up to date), which are the rest.
pub fn check_counts(results: &Vec<VersionResult>) -> (c: CheckCounts)
    ensures
        c.total == results@.len(),
        c.outdated == count_where(results@, |r: VersionResult| is_outdated_result(r)),
        c.skipped == count_where(results@, |r: VersionResult| is_skipped_result(r)),
        c.errors == count_where(results@, |r: VersionResult| is_error_result(r)),
        c.current == c.total - c.outdated - c.skipped - c.errors,
        c.current == count_where(results@, |r: VersionResult| is_current_result(r)),
{
    let ghost rs = results@;
    let mut outdated: usize = 0;
    let mut skipped: usize = 0;
    let mut errors: usize = 0;
    let mut current: usize = 0;
    let mut i: usize = 0;
    while i < results.len()
        invariant
            rs == results@,
            i <= rs.len(),
            outdated == count_where(rs.subrange(0, i as int), |r: VersionResult| is_outdated_result(r)),
            skipped == count_where(rs.subrange(0, i as int), |r: VersionResult| is_skipped_result(r)),
            errors == count_where(rs.subrange(0, i as int), |r: VersionResult| is_error_result(r)),
            current == count_where(rs.subrange(0, i as int), |r: VersionResult| is_current_result(r)),
        decreases rs.len() - i,
    {
        proof {
            let pre = rs.subrange(0, i as int);
            lemma_outcomes_partition(pre);
            assert(rs.subrange(0, i as int + 1).drop_last() =~= pre);
            assert(rs.subrange(0, i as int + 1).last() == rs[i as int]);
        }
        if results[i].is_outdated() {
            outdated = outdated + 1;
        } else if results[i].is_skipped() {
            skipped = skipped + 1;
        } else if results[i].error_message().is_some() {
            errors = errors + 1;
        } else {
            current = current + 1;
        }
        i = i + 1;
    }
    proof {
        assert(rs.subrange(0, rs.len() as int) =~= rs);
        lemma_outcomes_partition(rs);
    }
    CheckCounts { total: results.len(), current, outdated, skipped, errors }
}

/// The counts of an `update` run.
#[derive(Debug, Clone, Copy)]
pub struct UpdateCounts {
    pub total: usize,
    pub errors: usize,
}

pub open spec fn is_failed_update(u: UpdateResult) -> bool {
    u.status is Error
}

/// Counts the update results, and those that failed.
pub fn update_counts(results: &Vec<UpdateResult>) -> (c: UpdateCounts)
    ensures
        c.total == results@.len(),
        c.errors == count_where(results@, |u: UpdateResult| is_failed_update(u)),
{
    let ghost rs = results@;
    let mut errors: usize = 0;
    let mut i: usize = 0;
    while i < results.len()
        invariant
            rs == results@,
            i <= rs.len(),
            errors == count_where(rs.subrange(0, i as int), |u: UpdateResult| is_failed_update(u)),
        decreases rs.len() - i,
    {
        proof {
            let pre = rs.subrange(0, i as int);
            lemma_count_where_le(pre, |u: UpdateResult| is_failed_update(u));
            assert(rs.subrange(0, i as int + 1).drop_last() =~= pre);
            assert(rs.subrange(0, i as int + 1).last() == rs[i as int]);
        }
        if results[i].is_error() {
            errors = errors + 1;
        }
        i = i + 1;
    }
    assert(rs.subrange(0, rs.len() as int) =~= rs);
    UpdateCounts { total: results.len(), errors }
}

/// The counts of an `audit` run: results in total, vulnerable and clean, and
/// the vulnerabilities of all results by severity.
#[derive(Debug, Clone, Copy)]
pub struct AuditCounts {
    pub total: usize,
    pub vulnerable: usize,
    pub clean: usize,
    pub critical: usize,
    pub high: usize,
    pub medium: usize,
    pub low: usize,
}

pub open spec fn is_vulnerable_result(r: AuditResult) -> bool {
    r.vulnerabilities@.len() > 0
}

/// How many vulnerabilities of all the results have severity `s`.
pub open spec fn severity_total(rs: Seq<AuditResult>, s: Severity) -> nat
    decreases rs.len(),
{
    if rs.len() == 0 {
        0
    } else {
        severity_total(rs.drop_last(), s) + count_where(rs.last().vulnerabilities@, |v: Vulnerability| v.severity == s)
    }
}

fn count_severity(vulns: &Vec<Vulnerability>, s: Severity) -> (n: usize)
    ensures
        n == count_where(vulns@, |v: Vulnerability| v.severity == s),
{
    let ghost vs = vulns@;
    let mut n: usize = 0;
    let mut i: usize = 0;
    while i < vulns.len()
        invariant
            vs == vulns@,
            i <= vs.len(),
            n == count_where(vs.subrange(0, i as int), |v: Vulnerability| v.severity == s),
        decreases vs.len() - i,
    {
        proof {
            let pre = vs.subrange(0, i as int);
            lemma_count_where_le(pre, |v: Vulnerability| v.severity == s);
            assert(vs.subrange(0, i as int + 1).drop_last() =~= pre);
            assert(vs.subrange(0, i as int + 1).last() == vs[i as int]);
        }
        if vulns[i].severity == s {
            n = n + 1;
        }
        i = i + 1;
    }
    assert(vs.subrange(0, vs.len() as int) =~= vs);
    n
}

/// Counts the audit results, vulnerable and clean, and the vulnerabilities by
/// severity; `None` where a count does not fit in a `usize`.
pub fn audit_counts(results: &Vec<AuditResult>) -> (c: Option<AuditCounts>)
    ensures
        match c {
            Some(c) => {
                &&& c.total == results@.len()
                &&& c.vulnerable == count_where(results@, |r: AuditResult| is_vulnerable_result(r))
                &&& c.clean == c.total - c.vulnerable
                &&& c.critical == severity_total(results@, Severity::Critical)
                &&& c.high == severity_total(results@, Severity::High)
                &&& c.medium == severity_total(results@, Severity::Medium)
                &&& c.low == severity_total(results@, Severity::Low)
            },
            None => severity_total(results@, Severity::Critical) > usize::MAX || severity_total(results@, Severity::High)
                > usize::MAX || severity_total(results@, Severity::Medium) > usize::MAX || severity_total(
                results@,
                Severity::Low,
            ) > usize::MAX,
        },
{
    let ghost rs = results@;
    let mut vulnerable: usize = 0;
    let mut critical: usize = 0;
    let mut high: usize = 0;
    let mut medium: usize = 0;
    let mut low: usize = 0;
    let mut i: usize = 0;
    while i < results.len()
        invariant
            rs == results@,
            i <= rs.len(),
            vulnerable == count_where(rs.subrange(0, i as int), |r: AuditResult| is_vulnerable_result(r)),
            critical == severity_total(rs.subrange(0, i as int), Severity::Critical),
            high == severity_total(rs.subrange(0, i as int), Severity::High),
            medium == severity_total(rs.subrange(0, i as int), Severity::Medium),
            low == severity_total(rs.subrange(0, i as int), Severity::Low),
        decreases rs.len() - i,
    {
        let ghost pre = rs.subrange(0, i as int);
        proof {
            lemma_count_where_le(pre, |r: AuditResult| is_vulnerable_result(r));
            assert(rs.subrange(0, i as int + 1).drop_last() =~= pre);
            assert(rs.subrange(0, i as int + 1).last() == rs[i as int]);
            lemma_severity_total_grows(rs, i as int + 1);
        }
        let r = &results[i];
        if r.is_vulnerable() {
            vulnerable = vulnerable + 1;
        }
        let c = count_severity(&r.vulnerabilities, Severity::Critical);
        let h = count_severity(&r.vulnerabilities, Severity::High);
        let m = count_severity(&r.vulnerabilities, Severity::Medium);
        let l = count_severity(&r.vulnerabilities, Severity::Low);
        match (critical.checked_add(c), high.checked_add(h), medium.checked_add(m), low.checked_add(l)) {
            (Some(c2), Some(h2), Some(m2), Some(l2)) => {
                critical = c2;
                high = h2;
                medium = m2;
                low = l2;
            },
            _ => {
                proof {
                    let next = rs.subrange(0, i as int + 1);
                    assert(severity_total(next, Severity::Critical) == critical + c);
                    assert(severity_total(next, Severity::High) == high + h);
                    assert(severity_total(next, Severity::Medium) == medium + m);
                    assert(severity_total(next, Severity::Low) == low + l);
                }
                return None;
            },
        }
        i = i + 1;
    }
    assert(rs.subrange(0, rs.len() as int) =~= rs);
    proof {
        lemma_count_where_le(rs, |r: AuditResult| is_vulnerable_result(r));
    }
    Some(AuditCounts { total: results.len(), vulnerable, clean: results.len() - vulnerable, critical, high, medium, low })
}

/// The severity totals of a prefix are at most those of the whole list.
proof fn lemma_severity_total_grows(rs: Seq<AuditResult>, n: int)
    requires
        0 <= n <= rs.len(),
    ensures
        forall|s: Severity| #[trigger] severity_total(rs.subrange(0, n), s) <= severity_total(rs, s),
    decreases rs.len() - n,
{
    if n < rs.len() {
        lemma_severity_total_grows(rs, n + 1);
        assert(rs.subrange(0, n + 1).drop_last() =~= rs.subrange(0, n));
        assert forall|s: Severity| #[trigger] severity_total(rs.subrange(0, n), s) <= severity_total(rs, s) by {
            assert(severity_total(rs.subrange(0, n + 1), s) >= severity_total(rs.subrange(0, n), s));
        }
    } else {
        assert(rs.subrange(0, n) =~= rs);
    }
}

/// The severities with a non-zero count, most severe first, with their counts.
pub open spec fn spec_severity_parts(c: AuditCounts) -> Seq<(usize, Severity)> {
    let p1 = if c.critical > 0 { seq![(c.critical, Severity::Critical)] } else { Seq::empty() };
    let p2 = if c.high > 0 { seq![(c.high, Severity::High)] } else { Seq::empty() };
    let p3 = if c.medium > 0 { seq![(c.medium, Severity::Medium)] } else { Seq::empty() };
    let p4 = if c.low > 0 { seq![(c.low, Severity::Low)] } else { Seq::empty() };
    p1 + p2 + p3 + p4
}

/// The parts of the audit summary's severity breakdown: each severity with a
/// non-zero count, most severe first.
pub fn severity_parts(c: &AuditCounts) -> (v: Vec<(usize, Severity)>)
    ensures
        v@ == spec_severity_parts(*c),
{
    let mut v: Vec<(usize, Severity)> = Vec::new();
    if c.critical > 0 {
        v.push((c.critical, Severity::Critical));
    }
    if c.high > 0 {
        v.push((c.high, Severity::High));
    }
    if c.medium > 0 {
        v.push((c.medium, Severity::Medium));
    }
    if c.low > 0 {
        v.push((c.low, Severity::Low));
    }
    assert(v@ =~= spec_severity_parts(*c));
    v
}

// ---------------------------------------------------------------------------
// Legend and grouping
// ---------------------------------------------------------------------------

/// The kinds in display order.
pub open spec fn kind_order() -> Seq<DependencyKind> {
    seq![DependencyKind::Dependency, DependencyKind::Plugin, DependencyKind::NpmDep, DependencyKind::NpmDevDep, DependencyKind::Tool]
}

fn kind_order_exec() -> (v: Vec<DependencyKind>)
    ensures
        v@ == kind_order(),
{
    let v = vec![DependencyKind::Dependency, DependencyKind::Plugin, DependencyKind::NpmDep, DependencyKind::NpmDevDep, DependencyKind::Tool];
    assert(v@ =~= kind_order());
    v
}

/// The kinds of `order` that occur in `kinds`, in that order.
pub open spec fn present_kinds(order: Seq<DependencyKind>, kinds: Seq<DependencyKind>) -> Seq<DependencyKind>
    decreases order.len(),
{
    if order.len() == 0 {
        Seq::empty()
    } else {
        let rest = present_kinds(order.drop_last(), kinds);
        if kinds.contains(order.last()) {
            rest.push(order.last())
        } else {
            rest
        }
    }
}

fn contains_kind(kinds: &Vec<DependencyKind>, k: DependencyKind) -> (b: bool)
    ensures
        b == kinds@.contains(k),
{
    let mut i: usize = 0;
    while i < kinds.len()
        invariant
            i <= kinds@.len(),
            forall|j: int| 0 <= j < i ==> kinds@[j] != k,
        decreases kinds@.len() - i,
    {
        if kinds[i] == k {
            return true;
        }
        i = i + 1;
    }
    false
}

/// The distinct kinds of a list, in display order, as the legend lists them.
pub fn legend_kinds(kinds: &Vec<DependencyKind>) -> (v: Vec<DependencyKind>)
    ensures
        v@ == present_kinds(kind_order(), kinds@),
{
    let order = kind_order_exec();
    let mut out: Vec<DependencyKind> = Vec::new();
    let mut i: usize = 0;
    assert(order@.subrange(0, 0) =~= Seq::<DependencyKind>::empty());
    while i < order.len()
        invariant
            order@ == kind_order(),
            i <= order@.len(),
            out@ == present_kinds(order@.subrange(0, i as int), kinds@),
        decreases order@.len() - i,
    {
        assert(order@.subrange(0, i as int + 1).drop_last() =~= order@.subrange(0, i as int));
        assert(order@.subrange(0, i as int + 1).last() == order@[i as int]);
        if contains_kind(kinds, order[i]) {
            out.push(order[i]);
        }
        i = i + 1;
    }
    assert(order@.subrange(0, order@.len() as int) =~= order@);
    out
}

/// The positions in `s` of the entries of ecosystem `e` and kind `k`, in order.
pub open spec fn positions_of(s: Seq<Dependency>, e: Ecosystem, k: DependencyKind) -> Seq<int>
    decreases s.len(),
{
    if s.len() == 0 {
        Seq::empty()
    } else {
        let rest = positions_of(s.drop_last(), e, k);
        if s.last().ecosystem == e && s.last().kind == k {
            rest.push(s.len() - 1)
        } else {
            rest
        }
    }
}

/// `idx` with `x` placed after the last position whose artifact is not above
/// the artifact at `x`.
pub open spec fn insert_by_artifact(idx: Seq<int>, x: int, s: Seq<Dependency>) -> Seq<int>
    decreases idx.len(),
{
    if idx.len() == 0 {
        seq![x]
    } else if seq_le(s[idx.last()].artifact@, s[x].artifact@) {
        idx.push(x)
    } else {
        insert_by_artifact(idx.drop_last(), x, s).push(idx.last())
    }
}

/// The positions ordered by artifact; equal artifacts keep their order.
pub open spec fn sort_by_artifact_at(idx: Seq<int>, s: Seq<Dependency>) -> Seq<int>
    decreases idx.len(),
{
    if idx.len() == 0 {
        idx
    } else {
        insert_by_artifact(sort_by_artifact_at(idx.drop_last(), s), idx.last(), s)
    }
}

proof fn lemma_insert_by_artifact(idx: Seq<int>, x: int, s: Seq<Dependency>, j: int)
    requires
        0 <= j <= idx.len(),
        forall|m: int| j <= m < idx.len() ==> !seq_le(s[#[trigger] idx[m]].artifact@, s[x].artifact@),
        j == 0 || seq_le(s[idx[j - 1]].artifact@, s[x].artifact@),
    ensures
        insert_by_artifact(idx, x, s) == idx.insert(j, x),
    decreases idx.len(),
{
    if idx.len() == 0 {
        assert(idx.insert(j, x) =~= seq![x]);
    } else if j == idx.len() {
        assert(idx.insert(j, x) =~= idx.push(x));
    } else {
        let t = idx.drop_last();
        lemma_insert_by_artifact(t, x, s, j);
        assert(idx.insert(j, x) =~= t.insert(j, x).push(idx.last()));
    }
}

/// Positions compare by the artifact found there.
pub open spec fn artifact_at_order(s: Seq<Dependency>) -> spec_fn(int, int) -> bool {
    by_key(|i: int| s[i].artifact@)
}

proof fn lemma_insert_by_artifact_by(idx: Seq<int>, x: int, s: Seq<Dependency>)
    ensures
        insert_by_artifact(idx, x, s) == insert_by(idx, x, artifact_at_order(s)),
    decreases idx.len(),
{
    if idx.len() > 0 {
        lemma_insert_by_artifact_by(idx.drop_last(), x, s);
    }
}

proof fn lemma_sort_by_artifact_at_by(idx: Seq<int>, s: Seq<Dependency>)
    ensures
        sort_by_artifact_at(idx, s) == insertion_sort(idx, artifact_at_order(s)),
    decreases idx.len(),
{
    if idx.len() > 0 {
        lemma_sort_by_artifact_at_by(idx.drop_last(), s);
        lemma_insert_by_artifact_by(sort_by_artifact_at(idx.drop_last(), s), idx.last(), s);
    }
}

/// Sorted positions come in order of the artifacts found there, and are the
/// positions given, each as often as given.
pub proof fn lemma_sorted_positions_ordered(idx: Seq<int>, s: Seq<Dependency>)
    ensures
        forall|i: int, j: int| 0 <= i < j < sort_by_artifact_at(idx, s).len()
            ==> seq_le(s[#[trigger] sort_by_artifact_at(idx, s)[i]].artifact@, s[#[trigger] sort_by_artifact_at(idx, s)[j]].artifact@),
        sort_by_artifact_at(idx, s).to_multiset() == idx.to_multiset(),
{
    lemma_key_order_total(|i: int| s[i].artifact@);
    lemma_sort_by_artifact_at_by(idx, s);
    lemma_insertion_sort(idx, artifact_at_order(s));
    let r = sort_by_artifact_at(idx, s);
    assert forall|i: int, j: int| 0 <= i < j < r.len() implies seq_le(s[#[trigger] r[i]].artifact@, s[#[trigger] r[j]].artifact@) by {
        assert(artifact_at_order(s)(r[i], r[j]));
    }
}

/// The positions of an ecosystem and kind are exactly the positions of the
/// entries of that ecosystem and kind, in increasing order: each entry is
/// listed under its own ecosystem and kind, once.
pub proof fn lemma_positions_of_exact(s: Seq<Dependency>, e: Ecosystem, k: DependencyKind)
    ensures
        forall|p: int| #[trigger] positions_of(s, e, k).contains(p) <==> (0 <= p < s.len() && s[p].ecosystem == e && s[p].kind == k),
        forall|i: int, j: int| 0 <= i < j < positions_of(s, e, k).len() ==> #[trigger] positions_of(s, e, k)[i] < #[trigger] positions_of(s, e, k)[j],
    decreases s.len(),
{
    if s.len() > 0 {
        let t = s.drop_last();
        lemma_positions_of_exact(t, e, k);
        let rest = positions_of(t, e, k);
        let ps = positions_of(s, e, k);
        assert forall|i: int| 0 <= i < rest.len() implies 0 <= #[trigger] rest[i] < t.len() by {
            assert(rest.contains(rest[i]));
        }
        assert forall|p: int| #[trigger] ps.contains(p) <==> (0 <= p < s.len() && s[p].ecosystem == e && s[p].kind == k) by {
            if ps.contains(p) {
                let m = choose|m: int| 0 <= m < ps.len() && ps[m] == p;
                if m < rest.len() {
                    assert(rest.contains(p));
                    assert(t[p] == s[p]);
                }
            }
            if 0 <= p < s.len() && s[p].ecosystem == e && s[p].kind == k {
                if p < t.len() {
                    assert(t[p] == s[p]);
                    assert(rest.contains(p));
                    let m = choose|m: int| 0 <= m < rest.len() && rest[m] == p;
                    assert(ps[m] == p);
                } else {
                    assert(ps[ps.len() - 1] == p);
                }
            }
        }
    }
}

/// The results of one kind within one ecosystem, as positions in the list.
#[derive(Debug, Clone)]
pub struct KindGroup {
    pub kind: DependencyKind,
    pub items: Vec<usize>,
}

/// The results of one ecosystem, kind by kind.
#[derive(Debug, Clone)]
pub struct DisplayGroup {
    pub ecosystem: Ecosystem,
    pub kinds: Vec<KindGroup>,
}

/// The kind groups of ecosystem `e`, for the kinds of `order` that occur there.
pub open spec fn kind_groups(s: Seq<Dependency>, e: Ecosystem, order: Seq<DependencyKind>) -> Seq<(DependencyKind, Seq<int>)>
    decreases order.len(),
{
    if order.len() == 0 {
        Seq::empty()
    } else {
        let rest = kind_groups(s, e, order.drop_last());
        let k = order.last();
        let ps = positions_of(s, e, k);
        if ps.len() > 0 {
            rest.push((k, sort_by_artifact_at(ps, s)))
        } else {
            rest
        }
    }
}

/// The ecosystems in display order.
pub open spec fn ecosystem_order() -> Seq<Ecosystem> {
    seq![Ecosystem::Maven, Ecosystem::Npm]
}

/// The groups for the ecosystems of `order` that occur in `s`.
pub open spec fn display_groups(s: Seq<Dependency>, order: Seq<Ecosystem>) -> Seq<(Ecosystem, Seq<(DependencyKind, Seq<int>)>)>
    decreases order.len(),
{
    if order.len() == 0 {
        Seq::empty()
    } else {
        let rest = display_groups(s, order.drop_last());
        let e = order.last();
        let g = kind_groups(s, e, kind_order());
        if g.len() > 0 {
            rest.push((e, g))
        } else {
            rest
        }
    }
}

/// The view of a list of display groups.
pub open spec fn groups_view(v: Seq<DisplayGroup>) -> Seq<(Ecosystem, Seq<(DependencyKind, Seq<int>)>)> {
    v.map_values(|g: DisplayGroup| (g.ecosystem, g.kinds@.map_values(|k: KindGroup| (k.kind, k.items@.map_values(|i: usize| i as int)))))
}

/// The identities of a list of results.
pub open spec fn deps_of<T: DependencyInfo>(items: Seq<T>) -> Seq<Dependency> {
    items.map_values(|t: T| t.dep_view())
}

fn positions_exec<T: DependencyInfo>(items: &Vec<T>, e: Ecosystem, k: DependencyKind) -> (r: Vec<usize>)
    ensures
        r@.map_values(|i: usize| i as int) == positions_of(deps_of(items@), e, k),
        forall|m: int| 0 <= m < r@.len() ==> r@[m] < items@.len(),
{
    let ghost s = deps_of(items@);
    let mut out: Vec<usize> = Vec::new();
    let mut i: usize = 0;
    assert(s.subrange(0, 0) =~= Seq::<Dependency>::empty());
    while i < items.len()
        invariant
            s == deps_of(items@),
            i <= items@.len(),
            out@.map_values(|x: usize| x as int) == positions_of(s.subrange(0, i as int), e, k),
            forall|m: int| 0 <= m < out@.len() ==> out@[m] < i,
        decreases items@.len() - i,
    {
        let ghost pre = s.subrange(0, i as int);
        assert(s.subrange(0, i as int + 1).drop_last() =~= pre);
        assert(s.subrange(0, i as int + 1).last() == items@[i as int].dep_view());
        if items[i].ecosystem() == e && items[i].kind() == k {
            let ghost before = out@;
            out.push(i);
            assert(out@.map_values(|x: usize| x as int) =~= before.map_values(|x: usize| x as int).push(i as int));
        }
        i = i + 1;
    }
    assert(s.subrange(0, s.len() as int) =~= s);
    out
}

fn sort_positions<T: DependencyInfo>(items: &Vec<T>, idx: Vec<usize>) -> (r: Vec<usize>)
    requires
        forall|m: int| 0 <= m < idx@.len() ==> idx@[m] < items@.len(),
    ensures
        r@.map_values(|i: usize| i as int) == sort_by_artifact_at(idx@.map_values(|i: usize| i as int), deps_of(items@)),
        forall|m: int| 0 <= m < r@.len() ==> r@[m] < items@.len(),
{
    let ghost s = deps_of(items@);
    let ghost iv = idx@.map_values(|i: usize| i as int);
    let mut out: Vec<usize> = Vec::new();
    let mut k: usize = 0;
    assert(iv.subrange(0, 0) =~= Seq::<int>::empty());
    while k < idx.len()
        invariant
            s == deps_of(items@),
            iv == idx@.map_values(|i: usize| i as int),
            forall|m: int| 0 <= m < idx@.len() ==> idx@[m] < items@.len(),
            k <= idx@.len(),
            out@.map_values(|i: usize| i as int) == sort_by_artifact_at(iv.subrange(0, k as int), s),
            forall|m: int| 0 <= m < out@.len() ==> out@[m] < items@.len(),
        decreases idx@.len() - k,
    {
        let x = idx[k];
        let ghost o = out@.map_values(|i: usize| i as int);
        let mut j: usize = out.len();
        while j > 0 && !str_le_exec(items[out[j - 1]].artifact(), items[x].artifact())
            invariant
                j <= out@.len(),
                x < items@.len(),
                s == deps_of(items@),
                o == out@.map_values(|i: usize| i as int),
                forall|m: int| 0 <= m < out@.len() ==> out@[m] < items@.len(),
                forall|m: int| j <= m < o.len() ==> !seq_le(s[#[trigger] o[m]].artifact@, s[x as int].artifact@),
            decreases j,
        {
            assert(s[o[j - 1]] == items@[out@[j - 1] as int].dep_view());
            j = j - 1;
        }
        proof {
            if j > 0 {
                assert(s[o[j - 1]] == items@[out@[j - 1] as int].dep_view());
            }
            assert(s[x as int] == items@[x as int].dep_view());
            lemma_insert_by_artifact(o, x as int, s, j as int);
            assert(iv.subrange(0, k as int + 1).drop_last() =~= iv.subrange(0, k as int));
            assert(iv.subrange(0, k as int + 1).last() == x as int);
        }
        out.insert(j, x);
        assert(out@.map_values(|i: usize| i as int) =~= o.insert(j as int, x as int));
        k = k + 1;
    }
    assert(iv.subrange(0, iv.len() as int) =~= iv);
    out
}

/// Groups results for display: by ecosystem (Maven, then npm), within each by
/// kind in display order, and within each kind by artifact, equal artifacts in
/// their original order. Only ecosystems and kinds that occur are listed.
pub fn group_for_display<T: DependencyInfo>(items: &Vec<T>) -> (r: Vec<DisplayGroup>)
    ensures
        groups_view(r@) == display_groups(deps_of(items@), ecosystem_order()),
{
    let ghost s = deps_of(items@);
    let ecos = vec![Ecosystem::Maven, Ecosystem::Npm];
    assert(ecos@ =~= ecosystem_order());
    let kinds = kind_order_exec();
    let mut out: Vec<DisplayGroup> = Vec::new();
    let mut a: usize = 0;
    assert(ecos@.subrange(0, 0) =~= Seq::<Ecosystem>::empty());
    assert(groups_view(out@) =~= display_groups(s, ecos@.subrange(0, 0)));
    while a < ecos.len()
        invariant
            s == deps_of(items@),
            ecos@ == ecosystem_order(),
            kinds@ == kind_order(),
            a <= ecos@.len(),
            groups_view(out@) == display_groups(s, ecos@.subrange(0, a as int)),
        decreases ecos@.len() - a,
    {
        let e = ecos[a];
        let mut groups: Vec<KindGroup> = Vec::new();
        let mut b: usize = 0;
        assert(kinds@.subrange(0, 0) =~= Seq::<DependencyKind>::empty());
        assert(groups@.map_values(|k: KindGroup| (k.kind, k.items@.map_values(|i: usize| i as int))) =~= kind_groups(s, e, kinds@.subrange(0, 0)));
        while b < kinds.len()
            invariant
                s == deps_of(items@),
                kinds@ == kind_order(),
                b <= kinds@.len(),
                groups@.map_values(|k: KindGroup| (k.kind, k.items@.map_values(|i: usize| i as int))) == kind_groups(s, e, kinds@.subrange(0, b as int)),
            decreases kinds@.len() - b,
        {
            let k = kinds[b];
            assert(kinds@.subrange(0, b as int + 1).drop_last() =~= kinds@.subrange(0, b as int));
            assert(kinds@.subrange(0, b as int + 1).last() == k);
            let ps = positions_exec(items, e, k);
            if ps.len() > 0 {
                let sorted = sort_positions(items, ps);
                let ghost before = groups@.map_values(|k: KindGroup| (k.kind, k.items@.map_values(|i: usize| i as int)));
                let ghost sv = sorted@.map_values(|i: usize| i as int);
                groups.push(KindGroup { kind: k, items: sorted });
                assert(groups@.map_values(|k: KindGroup| (k.kind, k.items@.map_values(|i: usize| i as int))) =~= before.push((k, sv)));
            }
            b = b + 1;
        }
        assert(kinds@.subrange(0, kinds@.len() as int) =~= kinds@);
        assert(ecos@.subrange(0, a as int + 1).drop_last() =~= ecos@.subrange(0, a as int));
        assert(ecos@.subrange(0, a as int + 1).last() == e);
        if groups.len() > 0 {
            let ghost before = groups_view(out@);
            let ghost gv = groups@.map_values(|k: KindGroup| (k.kind, k.items@.map_values(|i: usize| i as int)));
            out.push(DisplayGroup { ecosystem: e, kinds: groups });
            assert(groups_view(out@) =~= before.push((e, gv)));
        }
        a = a + 1;
    }
    assert(ecos@.subrange(0, ecos@.len() as int) =~= ecos@);
    out
}

} // verus!
