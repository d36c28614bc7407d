//! Decisions shared by the subcommands: which ecosystems to scan, which npm
//! project an outdated result belongs to, and where shell completions go.

use vstd::prelude::*;

use crate::filter::Filter;
use crate::model::{AuditResult, DependencyInfo, DependencyKind, Ecosystem, Severity, UpdateResult, VersionResult};
use crate::npm::{spec_relative_source, NpmProject};
use crate::text::str_eq;

verus! {

/// Which ecosystems to discover and check.
#[derive(Debug, Clone, Copy)]
pub struct EcosystemSelection {
    pub maven: bool,
    pub npm: bool,
}

/// Determines which ecosystems to discover: Maven unless the filter asks for
/// npm only and only where the root holds a `pom.xml`; npm unless the filter
/// asks for Maven only.
pub fn detect_ecosystems(filter: &Filter, pom_exists: bool) -> (e: EcosystemSelection)
    ensures
        e.maven == (filter.ecosystem != Some(Ecosystem::Npm) && pom_exists),
        e.npm == (filter.ecosystem != Some(Ecosystem::Maven)),
{
    let maven = match filter.ecosystem {
        Some(Ecosystem::Npm) => false,
        _ => pom_exists,
    };
    let npm = match filter.ecosystem {
        Some(Ecosystem::Maven) => false,
        _ => true,
    };
    EcosystemSelection { maven, npm }
}

/// Common setup extracted from the command line, shared by check, update and audit.
#[derive(Debug)]
pub struct CommandSetup {
    pub root: String,
    pub ecosystems: EcosystemSelection,
    pub filter: Filter,
    pub json: bool,
}

/// Configuration for the shared version resolution pipeline.
#[derive(Debug)]
pub struct ResolveConfig<'a> {
    pub root: &'a str,
    pub ecosystems: &'a EcosystemSelection,
    pub stable: bool,
    pub json: bool,
}

impl CommandSetup {
    /// The pipeline configuration: the root, the ecosystems, the filter's
    /// `stable` flag and the output mode.
    pub fn resolve_config(&self) -> (c: ResolveConfig<'_>)
        ensures
            c.root@ == self.root@,
            *c.ecosystems == self.ecosystems,
            c.stable == self.filter.stable,
            c.json == self.json,
    {
        ResolveConfig { root: self.root.as_str(), ecosystems: &self.ecosystems, stable: self.filter.stable, json: self.json }
    }
}

/// Results from the shared version resolution pipeline.
#[derive(Debug)]
pub struct PipelineResult {
    pub results: Vec<VersionResult>,
    pub npm_projects: Vec<NpmProject>,
}

/// The outdated results whose source is the project's `package.json`, in order.
pub open spec fn results_of(project: NpmProject, root: Seq<char>, outdated: Seq<VersionResult>) -> Seq<VersionResult>
    decreases outdated.len(),
{
    if outdated.len() == 0 {
        Seq::empty()
    } else {
        let rest = results_of(project, root, outdated.drop_last());
        if outdated.last().dep.source@ == spec_relative_source(project.path@, root) {
            rest.push(outdated.last())
        } else {
            rest
        }
    }
}

/// The projects with outdated results, each with its results, in project order.
pub open spec fn spec_match_npm_projects(projects: Seq<NpmProject>, root: Seq<char>, outdated: Seq<VersionResult>) -> Seq<(NpmProject, Seq<VersionResult>)>
    decreases projects.len(),
{
    if projects.len() == 0 {
        Seq::empty()
    } else {
        let rest = spec_match_npm_projects(projects.drop_last(), root, outdated);
        let p = projects.last();
        let rs = results_of(p, root, outdated);
        if rs.len() > 0 {
            rest.push((p, rs))
        } else {
            rest
        }
    }
}

fn results_of_exec(project: &NpmProject, root: &str, outdated: &Vec<VersionResult>) -> (r: Vec<VersionResult>)
    ensures
        r@ == results_of(*project, root@, outdated@),
{
    let source = project.relative_source(root);
    let ghost os = outdated@;
    let mut out: Vec<VersionResult> = Vec::new();
    let mut i: usize = 0;
    assert(os.subrange(0, 0) =~= Seq::<VersionResult>::empty());
    while i < outdated.len()
        invariant
            os == outdated@,
            source@ == spec_relative_source(project.path@, root@),
            i <= os.len(),
            out@ == results_of(*project, root@, os.subrange(0, i as int)),
        decreases os.len() - i,
    {
        assert(os.subrange(0, i as int + 1).drop_last() =~= os.subrange(0, i as int));
        assert(os.subrange(0, i as int + 1).last() == os[i as int]);
        if str_eq(outdated[i].source(), source.as_str()) {
            out.push(outdated[i].copy());
        }
        i = i + 1;
    }
    assert(os.subrange(0, os.len() as int) =~= os);
    out
}

/// Matches outdated results to their npm projects by source path: each
/// project with results, with the results whose source is its `package.json`
/// relative to `root`.
pub fn match_npm_projects<'a>(projects: &'a Vec<NpmProject>, root: &str, outdated: &Vec<VersionResult>) -> (r: Vec<(&'a NpmProject, Vec<VersionResult>)>)
    ensures
        r@.map_values(|e: (&'a NpmProject, Vec<VersionResult>)| (*e.0, e.1@)) == spec_match_npm_projects(projects@, root@, outdated@),
{
    let ghost ps = projects@;
    let mut out: Vec<(&'a NpmProject, Vec<VersionResult>)> = Vec::new();
    let mut i: usize = 0;
    assert(ps.subrange(0, 0) =~= Seq::<NpmProject>::empty());
    assert(out@.map_values(|e: (&'a NpmProject, Vec<VersionResult>)| (*e.0, e.1@)) =~= spec_match_npm_projects(ps.subrange(0, 0), root@, outdated@));
    while i < projects.len()
        invariant
            ps == projects@,
            i <= ps.len(),
            out@.map_values(|e: (&'a NpmProject, Vec<VersionResult>)| (*e.0, e.1@)) == spec_match_npm_projects(ps.subrange(0, i as int), root@, outdated@),
        decreases ps.len() - i,
    {
        assert(ps.subrange(0, i as int + 1).drop_last() =~= ps.subrange(0, i as int));
        assert(ps.subrange(0, i as int + 1).last() == ps[i as int]);
        let p = &projects[i];
        let rs = results_of_exec(p, root, outdated);
        if rs.len() > 0 {
            let ghost before = out@.map_values(|e: (&'a NpmProject, Vec<VersionResult>)| (*e.0, e.1@));
            let ghost rv = rs@;
            out.push((p, rs));
            assert(out@.map_values(|e: (&'a NpmProject, Vec<VersionResult>)| (*e.0, e.1@)) =~= before.push((*p, rv)));
        }
        i = i + 1;
    }
    assert(ps.subrange(0, ps.len() as int) =~= ps);
    out
}

/// The number of npm projects with outdated results.
pub fn count_npm_projects_with_outdated(projects: &Vec<NpmProject>, root: &str, outdated: &Vec<VersionResult>) -> (n: usize)
    ensures
        n == spec_match_npm_projects(projects@, root@, outdated@).len(),
{
    let m = match_npm_projects(projects, root, outdated);
    assert(m@.map_values(|e: (&NpmProject, Vec<VersionResult>)| (*e.0, e.1@)).len() == m@.len());
    m.len()
}

// ---------------------------------------------------------------------------
// Selections and exit codes
// ---------------------------------------------------------------------------

/// The results that pass `keep`, in order.
pub open spec fn select(results: Seq<VersionResult>, keep: spec_fn(VersionResult) -> bool) -> Seq<VersionResult>
    decreases results.len(),
{
    if results.len() == 0 {
        Seq::empty()
    } else {
        let rest = select(results.drop_last(), keep);
        if keep(results.last()) {
            rest.push(results.last())
        } else {
            rest
        }
    }
}

/// What `check` shows: the results that pass the filter.
pub open spec fn shown_by_check(filter: Filter, r: VersionResult) -> bool {
    filter.spec_matches(r)
}

/// What `update` updates: the outdated results that pass the filter.
pub open spec fn updated_by_update(filter: Filter, r: VersionResult) -> bool {
    r.status is Outdated && filter.spec_matches(r)
}

/// What `audit` and `sbom` cover: the results that pass the filter, tool
/// versions aside (they are no registry packages).
pub open spec fn covered_by_audit(filter: Filter, r: VersionResult) -> bool {
    r.dep.kind != DependencyKind::Tool && filter.spec_matches(r)
}

/// A selection holds exactly the results that pass its test, each where it
/// stood: nothing that fails the test, nothing left out that passes it.
pub proof fn lemma_select_exact(results: Seq<VersionResult>, keep: spec_fn(VersionResult) -> bool)
    ensures
        forall|r: VersionResult| #[trigger] select(results, keep).contains(r) <==> (results.contains(r) && keep(r)),
        select(results, keep).len() <= results.len(),
    decreases results.len(),
{
    if results.len() > 0 {
        let t = results.drop_last();
        lemma_select_exact(t, keep);
        let rest = select(t, keep);
        let out = select(results, keep);
        assert forall|r: VersionResult| #[trigger] out.contains(r) <==> (results.contains(r) && keep(r)) by {
            if out.contains(r) {
                let m = choose|m: int| 0 <= m < out.len() && out[m] == r;
                if m < rest.len() {
                    assert(rest.contains(r));
                    let k = choose|k: int| 0 <= k < t.len() && t[k] == r;
                    assert(results[k] == r);
                } else {
                    assert(results[results.len() - 1] == r);
                }
            }
            if results.contains(r) && keep(r) {
                let k = choose|k: int| 0 <= k < results.len() && results[k] == r;
                if k < t.len() {
                    assert(t[k] == r);
                    assert(rest.contains(r));
                    let m = choose|m: int| 0 <= m < rest.len() && rest[m] == r;
                    assert(out[m] == r);
                } else {
                    assert(out[out.len() - 1] == r);
                }
            }
        }
    }
}

/// `update` works on exactly the outdated results that pass the filter, and
/// `audit` on exactly the results that pass it and are no tool versions.
pub proof fn lemma_command_selections(results: Seq<VersionResult>, filter: Filter)
    ensures
        forall|r: VersionResult| #[trigger] select(results, selection_test(Selection::Update, filter)).contains(r)
            <==> (results.contains(r) && r.status is Outdated && filter.spec_matches(r)),
        forall|r: VersionResult| #[trigger] select(results, selection_test(Selection::Audit, filter)).contains(r)
            <==> (results.contains(r) && r.dep.kind != DependencyKind::Tool && filter.spec_matches(r)),
{
    lemma_select_exact(results, selection_test(Selection::Update, filter));
    lemma_select_exact(results, selection_test(Selection::Audit, filter));
}

/// Which results a command works on.
#[derive(Debug, Clone, Copy, PartialEq, Eq, Structural)]
pub enum Selection {
    /// Those that pass the filter (`check`).
    Check,
    /// The outdated ones that pass the filter (`update`).
    Update,
    /// Those that pass the filter, tool versions aside (`audit`, `sbom`).
    Audit,
}

/// Whether `r` belongs to the selection.
pub open spec fn spec_selected(sel: Selection, filter: Filter, r: VersionResult) -> bool {
    match sel {
        Selection::Check => shown_by_check(filter, r),
        Selection::Update => updated_by_update(filter, r),
        Selection::Audit => covered_by_audit(filter, r),
    }
}

/// The test of a selection, as a function.
pub open spec fn selection_test(sel: Selection, filter: Filter) -> spec_fn(VersionResult) -> bool {
    |r: VersionResult| spec_selected(sel, filter, r)
}

/// The results a command works on, in order (see [`Selection`]).
pub fn select_results(results: Vec<VersionResult>, filter: &Filter, sel: Selection) -> (out: Vec<VersionResult>)
    ensures
        out@ == select(results@, selection_test(sel, *filter)),
{
    let ghost all = results@;
    let n = results.len();
    let mut rest = crate::text::reverse_vec(results);
    let mut out: Vec<VersionResult> = Vec::new();
    let mut i: usize = 0;
    while i < n
        invariant
            n == all.len(),
            rest@.len() == n - i,
            forall|k: int| 0 <= k < rest@.len() ==> #[trigger] rest@[k] == all[n - 1 - k],
            i <= n,
            out@ == select(all.subrange(0, i as int), selection_test(sel, *filter)),
        decreases n - i,
    {
        let r = rest.pop().unwrap();
        assert(r == all[i as int]);
        assert(all.subrange(0, i as int + 1).drop_last() =~= all.subrange(0, i as int));
        let keep = match sel {
            Selection::Check => filter.matches(&r),
            Selection::Update => r.is_outdated() && filter.matches(&r),
            Selection::Audit => r.kind() != DependencyKind::Tool && filter.matches(&r),
        };
        if keep {
            out.push(r);
        }
        i = i + 1;
    }
    assert(all.subrange(0, n as int) =~= all);
    out
}

/// Some result is outdated (`check` then exits with code 1).
pub fn any_outdated(results: &Vec<VersionResult>) -> (b: bool)
    ensures
        b == exists|i: int| 0 <= i < results@.len() && (#[trigger] results@[i]).status is Outdated,
{
    let mut i: usize = 0;
    while i < results.len()
        invariant
            i <= results@.len(),
            forall|j: int| 0 <= j < i ==> !((#[trigger] results@[j]).status is Outdated),
        decreases results@.len() - i,
    {
        if results[i].is_outdated() {
            return true;
        }
        i = i + 1;
    }
    false
}

/// Some update failed (`update` then exits with code 1).
pub fn any_update_failed(results: &Vec<UpdateResult>) -> (b: bool)
    ensures
        b == exists|i: int| 0 <= i < results@.len() && (#[trigger] results@[i]).status is Error,
{
    let mut i: usize = 0;
    while i < results.len()
        invariant
            i <= results@.len(),
            forall|j: int| 0 <= j < i ==> !((#[trigger] results@[j]).status is Error),
        decreases results@.len() - i,
    {
        if results[i].is_error() {
            return true;
        }
        i = i + 1;
    }
    false
}

/// A vulnerability of `r` is critical or high.
pub open spec fn has_critical_or_high(r: AuditResult) -> bool {
    exists|j: int| 0 <= j < r.vulnerabilities@.len() && ((#[trigger] r.vulnerabilities@[j]).severity == Severity::Critical
        || r.vulnerabilities@[j].severity == Severity::High)
}

/// The exit code of `audit`: 3 where some vulnerability is critical or high,
/// else 2 where some result is vulnerable, else 0.
pub open spec fn spec_audit_exit_code(results: Seq<AuditResult>) -> u8 {
    if exists|i: int| 0 <= i < results.len() && has_critical_or_high(#[trigger] results[i]) {
        3
    } else if exists|i: int| 0 <= i < results.len() && (#[trigger] results[i]).vulnerabilities@.len() > 0 {
        2
    } else {
        0
    }
}

fn critical_or_high(r: &AuditResult) -> (b: bool)
    ensures
        b == has_critical_or_high(*r),
{
    let mut j: usize = 0;
    while j < r.vulnerabilities.len()
        invariant
            j <= r.vulnerabilities@.len(),
            forall|m: int| 0 <= m < j ==> !((#[trigger] r.vulnerabilities@[m]).severity == Severity::Critical
                || r.vulnerabilities@[m].severity == Severity::High),
        decreases r.vulnerabilities@.len() - j,
    {
        let s = r.vulnerabilities[j].severity;
        if s == Severity::Critical || s == Severity::High {
            return true;
        }
        j = j + 1;
    }
    false
}

/// The exit code of `audit` for the results it shows.
pub fn audit_exit_code(results: &Vec<AuditResult>) -> (c: u8)
    ensures
        c == spec_audit_exit_code(results@),
{
    let mut severe = false;
    let mut vulnerable = false;
    let mut i: usize = 0;
    while i < results.len()
        invariant
            i <= results@.len(),
            severe == exists|k: int| 0 <= k < i && has_critical_or_high(#[trigger] results@[k]),
            vulnerable == exists|k: int| 0 <= k < i && (#[trigger] results@[k]).vulnerabilities@.len() > 0,
        decreases results@.len() - i,
    {
        if critical_or_high(&results[i]) {
            severe = true;
        }
        if results[i].is_vulnerable() {
            vulnerable = true;
        }
        i = i + 1;
    }
    if severe {
        3
    } else if vulnerable {
        2
    } else {
        0
    }
}

/// The preview a dry run shows: each outdated result updated to its latest
/// version (`?` where it has none).
pub fn dry_run_preview(outdated: &Vec<VersionResult>) -> (r: Vec<UpdateResult>)
    ensures
        r@.len() == outdated@.len(),
        forall|i: int| 0 <= i < r@.len() ==> {
            &&& (#[trigger] r@[i]).dep == outdated@[i].dep
            &&& r@[i].old_version == outdated@[i].current_version
            &&& r@[i].new_version@ == (match outdated@[i].spec_latest() {
                Some(l) => l,
                None => "?"@,
            })
            &&& r@[i].status is Updated
        },
{
    let mut out: Vec<UpdateResult> = Vec::new();
    let mut i: usize = 0;
    while i < outdated.len()
        invariant
            i <= outdated@.len(),
            out@.len() == i,
            forall|k: int| 0 <= k < i ==> {
                &&& (#[trigger] out@[k]).dep == outdated@[k].dep
                &&& out@[k].old_version == outdated@[k].current_version
                &&& out@[k].new_version@ == (match outdated@[k].spec_latest() {
                    Some(l) => l,
                    None => "?"@,
                })
                &&& out@[k].status is Updated
            },
        decreases outdated@.len() - i,
    {
        let latest = match outdated[i].latest_version() {
            Some(l) => String::from_str(l),
            None => String::from_str("?"),
        };
        out.push(UpdateResult::updated(&outdated[i], latest));
        i = i + 1;
    }
    out
}

/// The results of one ecosystem, in order.
pub fn of_ecosystem(results: &Vec<VersionResult>, e: Ecosystem) -> (out: Vec<VersionResult>)
    ensures
        out@ == select(results@, |r: VersionResult| r.dep.ecosystem == e),
{
    let ghost all = results@;
    let mut out: Vec<VersionResult> = Vec::new();
    let mut i: usize = 0;
    while i < results.len()
        invariant
            all == results@,
            i <= all.len(),
            out@ == select(all.subrange(0, i as int), |r: VersionResult| r.dep.ecosystem == e),
        decreases all.len() - i,
    {
        assert(all.subrange(0, i as int + 1).drop_last() =~= all.subrange(0, i as int));
        if results[i].ecosystem() == e {
            out.push(results[i].copy());
        }
        i = i + 1;
    }
    assert(all.subrange(0, all.len() as int) =~= all);
    out
}

/// The number of distinct sources among the results (POM files to update).
pub open spec fn distinct_sources(results: Seq<VersionResult>) -> nat
    decreases results.len(),
{
    if results.len() == 0 {
        0
    } else {
        let pre = results.drop_last();
        distinct_sources(pre) + if exists|j: int| 0 <= j < pre.len() && (#[trigger] pre[j]).dep.source@ == results.last().dep.source@ {
            0nat
        } else {
            1nat
        }
    }
}

proof fn lemma_distinct_sources_le(results: Seq<VersionResult>)
    ensures
        distinct_sources(results) <= results.len(),
    decreases results.len(),
{
    if results.len() > 0 {
        lemma_distinct_sources_le(results.drop_last());
    }
}

/// How many distinct sources the results come from.
pub fn count_sources(results: &Vec<VersionResult>) -> (n: usize)
    ensures
        n == distinct_sources(results@),
{
    let ghost all = results@;
    let mut n: usize = 0;
    let mut i: usize = 0;
    while i < results.len()
        invariant
            all == results@,
            i <= all.len(),
            n == distinct_sources(all.subrange(0, i as int)),
        decreases all.len() - i,
    {
        let ghost pre = all.subrange(0, i as int);
        proof {
            lemma_distinct_sources_le(pre);
            assert(all.subrange(0, i as int + 1).drop_last() =~= pre);
            assert(all.subrange(0, i as int + 1).last() == all[i as int]);
        }
        let mut seen = false;
        let mut j: usize = 0;
        while j < i
            invariant
                all == results@,
                i < all.len(),
                j <= i,
                pre == all.subrange(0, i as int),
                seen == exists|m: int| 0 <= m < j && (#[trigger] pre[m]).dep.source@ == all[i as int].dep.source@,
            decreases i - j,
        {
            assert(pre[j as int] == all[j as int]);
            if str_eq(results[j].source(), results[i].source()) {
                seen = true;
            }
            j = j + 1;
        }
        if !seen {
            n = n + 1;
        }
        i = i + 1;
    }
    assert(all.subrange(0, all.len() as int) =~= all);
    n
}

// ---------------------------------------------------------------------------
// Shell completions
// ---------------------------------------------------------------------------

/// The shells completions can be generated for.
pub open spec fn spec_supported_shell(shell: Seq<char>) -> bool {
    shell == "bash"@ || shell == "zsh"@ || shell == "fish"@ || shell == "elvish"@ || shell == "powershell"@
}

/// Whether completions can be generated for `shell`.
pub fn is_supported_shell(shell: &str) -> (b: bool)
    ensures
        b == spec_supported_shell(shell@),
{
    str_eq(shell, "bash") || str_eq(shell, "zsh") || str_eq(shell, "fish") || str_eq(shell, "elvish") || str_eq(
        shell,
        "powershell",
    )
}

/// The error for a shell completions cannot be generated for.
pub fn unsupported_shell_message(shell: &str) -> (s: String)
    ensures
        s@ == "Unsupported shell: '"@ + shell@ + "'. Supported shells: bash, zsh, fish, elvish, powershell"@,
{
    let mut s = String::from_str("Unsupported shell: '");
    s.append(shell);
    s.append("'. Supported shells: bash, zsh, fish, elvish, powershell");
    s
}

/// The shell named by the `SHELL` variable (fish, zsh, bash or elvish, the
/// first whose name it contains); else PowerShell where `PSModulePath` is set;
/// else bash.
pub open spec fn spec_shell_from_env(shell_var: Option<Seq<char>>, ps_module_path: bool) -> Seq<char> {
    let named = match shell_var {
        Some(s) => if crate::version::contains_seq(s, "fish"@) {
            Some("fish"@)
        } else if crate::version::contains_seq(s, "zsh"@) {
            Some("zsh"@)
        } else if crate::version::contains_seq(s, "bash"@) {
            Some("bash"@)
        } else if crate::version::contains_seq(s, "elvish"@) {
            Some("elvish"@)
        } else {
            None
        },
        None => None,
    };
    match named {
        Some(n) => n,
        None => if ps_module_path { "powershell"@ } else { "bash"@ },
    }
}

/// Picks the shell from the `SHELL` variable and whether `PSModulePath` is set.
pub fn shell_from_env(shell_var: Option<&str>, ps_module_path: bool) -> (s: &'static str)
    ensures
        s@ == spec_shell_from_env(match shell_var {
            Some(v) => Some(v@),
            None => None,
        }, ps_module_path),
{
    match shell_var {
        Some(v) => {
            let c = crate::text::chars_of(v);
            if crate::version::contains_chars(&c, "fish") {
                return "fish";
            } else if crate::version::contains_chars(&c, "zsh") {
                return "zsh";
            } else if crate::version::contains_chars(&c, "bash") {
                return "bash";
            } else if crate::version::contains_chars(&c, "elvish") {
                return "elvish";
            }
        },
        None => {},
    }
    if ps_module_path {
        "powershell"
    } else {
        "bash"
    }
}

/// Where completions for `shell` are installed under `home`.
pub open spec fn spec_completion_file(shell: Seq<char>) -> Option<Seq<char>> {
    if shell == "fish"@ {
        Some(".config/fish/completions/mvnup.fish"@)
    } else if shell == "zsh"@ {
        Some(".zsh/completions/_mvnup"@)
    } else if shell == "bash"@ {
        Some(".local/share/bash-completion/completions/mvnup"@)
    } else if shell == "elvish"@ {
        Some(".config/elvish/lib/mvnup.elv"@)
    } else if shell == "powershell"@ {
        Some(".config/powershell/mvnup.ps1"@)
    } else {
        None
    }
}

/// The completions file for `shell` under `home`; an error naming an
/// unsupported shell.
pub fn completion_path_for_home(home: &str, shell: &str) -> (r: Result<String, String>)
    ensures
        match spec_completion_file(shell@) {
            Some(f) => r matches Ok(p) && p@ == crate::paths::path_join(home@, f),
            None => r matches Err(e) && e@ == "Unsupported shell: "@ + shell@,
        },
{
    let file = if str_eq(shell, "fish") {
        ".config/fish/completions/mvnup.fish"
    } else if str_eq(shell, "zsh") {
        ".zsh/completions/_mvnup"
    } else if str_eq(shell, "bash") {
        ".local/share/bash-completion/completions/mvnup"
    } else if str_eq(shell, "elvish") {
        ".config/elvish/lib/mvnup.elv"
    } else if str_eq(shell, "powershell") {
        ".config/powershell/mvnup.ps1"
    } else {
        let mut e = String::from_str("Unsupported shell: ");
        e.append(shell);
        return Err(e);
    };
    Ok(crate::paths::join(home, file))
}

/// The completions file for `shell` under the home directory, where one is known.
pub fn completion_path(home: Option<&str>, shell: &str) -> (r: Result<String, String>)
    ensures
        match home {
            None => r matches Err(e) && e@ == "Could not determine home directory"@,
            Some(h) => match spec_completion_file(shell@) {
                Some(f) => r matches Ok(p) && p@ == crate::paths::path_join(h@, f),
                None => r matches Err(e) && e@ == "Unsupported shell: "@ + shell@,
            },
        },
{
    match home {
        None => Err(String::from_str("Could not determine home directory")),
        Some(h) => completion_path_for_home(h, shell),
    }
}

} // verus!
