//! npm ecosystem logic: package managers, the `packageManager` field, and the
//! merging of what a package manager lists.
//!
//! Running package managers and reading `package.json` files is left to the
//! caller; what it reads is handed over as plain values.

use vstd::prelude::*;

use crate::model::{Dependency, DependencyKind, Ecosystem, UpdateResult, UpdateStatus, VersionResult, VersionStatus};
use crate::pom::{opt_view, strings_view};
use crate::sorting::{by_key, insert_by, insertion_sort, lemma_insertion_sort, lemma_key_order_total};
use crate::text::str_eq;

verus! {

/// Supported npm ecosystem package managers.
#[derive(Debug, Clone, Copy, PartialEq, Eq, Structural)]
pub enum PackageManager {
    Npm,
    Pnpm,
    Yarn,
    Bun,
}

impl PackageManager {
    /// The command name of a package manager.
    pub open spec fn spec_command(self) -> Seq<char> {
        match self {
            PackageManager::Npm => "npm"@,
            PackageManager::Pnpm => "pnpm"@,
            PackageManager::Yarn => "yarn"@,
            PackageManager::Bun => "bun"@,
        }
    }

    /// The CLI command name of this package manager.
    pub fn command(self) -> (s: &'static str)
        ensures
            s@ == self.spec_command(),
    {
        match self {
            PackageManager::Npm => "npm",
            PackageManager::Pnpm => "pnpm",
            PackageManager::Yarn => "yarn",
            PackageManager::Bun => "bun",
        }
    }

    /// The display name: the command name.
    pub fn to_string(&self) -> (s: String)
        ensures
            s@ == self.spec_command(),
    {
        String::from_str(self.command())
    }
}

/// A single installed package from a package manager's list output.
#[derive(Debug, Clone)]
pub struct InstalledPackage {
    pub name: String,
    pub version: String,
    pub is_dev: bool,
}

/// A package that has a newer version available.
#[derive(Debug, Clone)]
pub struct OutdatedEntry {
    pub current: String,
    pub latest: String,
}

/// A discovered npm ecosystem project.
#[derive(Debug, Clone)]
pub struct NpmProject {
    pub path: String,
    pub name: String,
    pub package_manager: PackageManager,
    /// Version from the `packageManager` field (`9.15.0` from `pnpm@9.15.0`).
    pub pm_version: Option<String>,
}

/// The source an npm project's results carry: its `package.json`, relative
/// to `root` where the project lies under it.
pub open spec fn spec_relative_source(path: Seq<char>, root: Seq<char>) -> Seq<char> {
    let rel = match crate::paths::path_strip_prefix(path, root) {
        Some(r) => r,
        None => path,
    };
    crate::paths::path_join(rel, "package.json"@)
}

impl NpmProject {
    /// The project's `package.json`, relative to `root` where the project lies
    /// under it.
    pub fn relative_source(&self, root: &str) -> (s: String)
        ensures
            s@ == spec_relative_source(self.path@, root@),
    {
        let rel = match crate::paths::strip_prefix(self.path.as_str(), root) {
            Some(r) => r,
            None => self.path.clone(),
        };
        crate::paths::join(rel.as_str(), "package.json")
    }
}

// ---------------------------------------------------------------------------
// The packageManager field
// ---------------------------------------------------------------------------

/// The position of the first `c` in `s` at or after `from`.
pub open spec fn find_char_from(s: Seq<char>, c: char, from: int) -> Option<int>
    decreases s.len() - from,
{
    if from < 0 || from >= s.len() {
        None
    } else if s[from] == c {
        Some(from)
    } else {
        find_char_from(s, c, from + 1)
    }
}

fn find_char_exec(s: &Vec<char>, c: char, from: usize) -> (r: Option<usize>)
    ensures
        match r {
            Some(i) => find_char_from(s@, c, from as int) == Some(i as int) && i < s@.len(),
            None => find_char_from(s@, c, from as int) is None,
        },
{
    let mut i: usize = from;
    while i < s.len()
        invariant
            from <= i,
            find_char_from(s@, c, from as int) == find_char_from(s@, c, i as int),
        decreases s@.len() - i,
    {
        if s[i] == c {
            return Some(i);
        }
        i = i + 1;
    }
    None
}

/// The package manager named in a `packageManager` value.
pub open spec fn spec_pm_named(name: Seq<char>) -> Option<PackageManager> {
    if name == "pnpm"@ {
        Some(PackageManager::Pnpm)
    } else if name == "npm"@ {
        Some(PackageManager::Npm)
    } else if name == "yarn"@ {
        Some(PackageManager::Yarn)
    } else if name == "bun"@ {
        Some(PackageManager::Bun)
    } else {
        None
    }
}

/// The package manager and version of a `packageManager` value such as
/// `pnpm@9.15.0+sha512.abc`: the name before the first `@`, the version after
/// it without any `+hash` suffix. `None` without an `@` or for an unknown name.
pub open spec fn spec_parse_pm_field(v: Seq<char>) -> Option<(PackageManager, Seq<char>)> {
    match find_char_from(v, '@', 0) {
        None => None,
        Some(at) => {
            let version = v.subrange(at + 1, v.len() as int);
            let version = match find_char_from(version, '+', 0) {
                Some(p) => version.subrange(0, p),
                None => version,
            };
            match spec_pm_named(v.subrange(0, at)) {
                Some(pm) => Some((pm, version)),
                None => None,
            }
        },
    }
}

/// Parses a `packageManager` value (`name@version`, with an optional `+hash`).
pub fn parse_package_manager_field(value: &str) -> (r: Option<(PackageManager, String)>)
    ensures
        match r {
            Some((pm, v)) => spec_parse_pm_field(value@) == Some((pm, v@)),
            None => spec_parse_pm_field(value@) is None,
        },
{
    let s = crate::text::chars_of(value);
    let at = match find_char_exec(&s, '@', 0) {
        Some(at) => at,
        None => {
            return None;
        },
    };
    let n = s.len();
    let name = crate::text::string_from_range(&s, 0, at);
    let rest = crate::text::chars_of(crate::text::string_from_range(&s, at + 1, n).as_str());
    let version = match find_char_exec(&rest, '+', 0) {
        Some(p) => crate::text::string_from_range(&rest, 0, p),
        None => {
            assert(rest@.subrange(0, rest@.len() as int) =~= rest@);
            crate::text::string_from_range(&rest, 0, rest.len())
        },
    };
    let pm = if str_eq(name.as_str(), "pnpm") {
        PackageManager::Pnpm
    } else if str_eq(name.as_str(), "npm") {
        PackageManager::Npm
    } else if str_eq(name.as_str(), "yarn") {
        PackageManager::Yarn
    } else if str_eq(name.as_str(), "bun") {
        PackageManager::Bun
    } else {
        return None;
    };
    Some((pm, version))
}

/// `dir` lies strictly inside one of the workspace roots.
pub open spec fn spec_is_workspace_member(dir: Seq<char>, roots: Seq<Seq<char>>) -> bool {
    exists|i: int| 0 <= i < roots.len() && (crate::paths::path_strip_prefix(dir, #[trigger] roots[i]) matches Some(rel) && rel.len() > 0)
}

/// Returns true if `dir` is a subdirectory of any workspace root (but not the
/// root itself).
pub fn is_workspace_member(dir: &str, workspace_roots: &Vec<String>) -> (b: bool)
    ensures
        b == spec_is_workspace_member(dir@, strings_view(workspace_roots@)),
{
    let ghost rs = strings_view(workspace_roots@);
    let mut i: usize = 0;
    while i < workspace_roots.len()
        invariant
            rs == strings_view(workspace_roots@),
            i <= rs.len(),
            forall|j: int| 0 <= j < i ==> !(crate::paths::path_strip_prefix(dir@, #[trigger] rs[j]) matches Some(rel) && rel.len() > 0),
        decreases rs.len() - i,
    {
        assert(rs[i as int] == workspace_roots@[i as int]@);
        match crate::paths::strip_prefix(dir, workspace_roots[i].as_str()) {
            Some(rel) => {
                if rel.as_str().unicode_len() > 0 {
                    return true;
                }
            },
            None => {},
        }
        i = i + 1;
    }
    false
}

/// The position of the first occurrence of `t` in `s`.
pub open spec fn find_seq(s: Seq<char>, t: Seq<char>, from: int) -> Option<int>
    decreases s.len() + 1 - from,
{
    if from < 0 || from + t.len() > s.len() {
        None
    } else if s.subrange(from, from + t.len()) == t {
        Some(from)
    } else {
        find_seq(s, t, from + 1)
    }
}

fn find_seq_exec(s: &Vec<char>, t: &Vec<char>) -> (r: Option<usize>)
    ensures
        match r {
            Some(i) => find_seq(s@, t@, 0) == Some(i as int) && i + t@.len() <= s@.len(),
            None => find_seq(s@, t@, 0) is None,
        },
{
    let n = s.len();
    let m = t.len();
    if m > n {
        return None;
    }
    let mut i: usize = 0;
    while i <= n - m
        invariant
            n == s@.len(),
            m == t@.len(),
            m <= n,
            i <= n - m + 1,
            find_seq(s@, t@, 0) == find_seq(s@, t@, i as int),
        decreases n - i,
    {
        let mut j: usize = 0;
        let mut ok = true;
        while j < m
            invariant
                n == s@.len(),
                m == t@.len(),
                i + m <= n,
                j <= m,
                ok == (forall|k: int| 0 <= k < j ==> s@[i + k] == t@[k]),
            decreases m - j,
        {
            if s[i + j] != t[j] {
                ok = false;
            }
            j = j + 1;
        }
        if ok {
            assert(s@.subrange(i as int, i + m) =~= t@);
            return Some(i);
        }
        proof {
            let k0 = choose|k: int| 0 <= k < m && s@[i + k] != t@[k];
            assert(s@.subrange(i as int, i + m)[k0] == s@[i + k0]);
        }
        i = i + 1;
    }
    None
}

/// The content with the value of the `"packageManager"` field replaced by
/// `new_value`; `None` where the key, its colon or its quoted value is missing.
pub open spec fn spec_replace_pm_value(content: Seq<char>, new_value: Seq<char>) -> Option<Seq<char>> {
    let key = "\"packageManager\""@;
    match find_seq(content, key, 0) {
        None => None,
        Some(k) => match find_char_from(content, ':', k + key.len()) {
            None => None,
            Some(colon) => match find_char_from(content, '"', colon + 1) {
                None => None,
                Some(open) => match find_char_from(content, '"', open + 1) {
                    None => None,
                    Some(close) => Some(content.subrange(0, open + 1) + new_value + content.subrange(close, content.len() as int)),
                },
            },
        },
    }
}

/// Replaces the value of the `"packageManager"` field in raw JSON content,
/// keeping all other formatting, key order and whitespace.
pub fn replace_pm_value(content: &str, new_value: &str) -> (r: Option<String>)
    ensures
        opt_view(r) == spec_replace_pm_value(content@, new_value@),
{
    let s = crate::text::chars_of(content);
    let key = crate::text::chars_of("\"packageManager\"");
    let k = match find_seq_exec(&s, &key) {
        Some(k) => k,
        None => {
            return None;
        },
    };
    let colon = match find_char_exec(&s, ':', k + key.len()) {
        Some(c) => c,
        None => {
            return None;
        },
    };
    let open = match find_char_exec(&s, '"', colon + 1) {
        Some(o) => o,
        None => {
            return None;
        },
    };
    let close = match find_char_exec(&s, '"', open + 1) {
        Some(c) => c,
        None => {
            return None;
        },
    };
    let mut out = crate::text::string_from_range(&s, 0, open + 1);
    out.append(new_value);
    out.append(crate::text::string_from_range(&s, close, s.len()).as_str());
    Some(out)
}

/// The package and version of a yarn list entry `package@version`, split at
/// the last `@` (which must not be the first character); `None` without a version.
pub open spec fn spec_parse_tree_name(name: Seq<char>) -> Option<(Seq<char>, Seq<char>)> {
    match find_last_at(name, name.len() as int) {
        Some(p) => if p > 0 && p + 1 < name.len() {
            Some((name.subrange(0, p), name.subrange(p + 1, name.len() as int)))
        } else {
            None
        },
        None => None,
    }
}

/// The position of the last `@` of `s` before `end`.
pub open spec fn find_last_at(s: Seq<char>, end: int) -> Option<int>
    decreases end,
{
    if end <= 0 || end > s.len() {
        None
    } else if s[end - 1] == '@' {
        Some(end - 1)
    } else {
        find_last_at(s, end - 1)
    }
}

/// Parses `package@version` from a yarn list tree entry.
pub fn parse_tree_name(name: &str) -> (r: Option<(String, String)>)
    ensures
        match r {
            Some((p, v)) => spec_parse_tree_name(name@) == Some((p@, v@)),
            None => spec_parse_tree_name(name@) is None,
        },
{
    let s = crate::text::chars_of(name);
    let n = s.len();
    let mut end: usize = n;
    while end > 0 && s[end - 1] != '@'
        invariant
            end <= n,
            n == s@.len(),
            find_last_at(s@, n as int) == find_last_at(s@, end as int),
        decreases end,
    {
        end = end - 1;
    }
    if end == 0 {
        return None;
    }
    let p = end - 1;
    if p > 0 && p + 1 < n {
        Some((crate::text::string_from_range(&s, 0, p), crate::text::string_from_range(&s, p + 1, n)))
    } else {
        None
    }
}

// ---------------------------------------------------------------------------
// Results
// ---------------------------------------------------------------------------

/// The entry listed for `name`, the first where several are.
pub open spec fn lookup_outdated(entries: Seq<(String, OutdatedEntry)>, name: Seq<char>) -> Option<OutdatedEntry>
    decreases entries.len(),
{
    if entries.len() == 0 {
        None
    } else if entries[0].0@ == name {
        Some(entries[0].1)
    } else {
        lookup_outdated(entries.drop_first(), name)
    }
}

fn lookup_outdated_exec<'a>(entries: &'a Vec<(String, OutdatedEntry)>, name: &str) -> (r: Option<&'a OutdatedEntry>)
    ensures
        match r {
            Some(e) => lookup_outdated(entries@, name@) == Some(*e),
            None => lookup_outdated(entries@, name@) is None,
        },
{
    let ghost es = entries@;
    let mut i: usize = 0;
    assert(es.skip(0) =~= es);
    while i < entries.len()
        invariant
            es == entries@,
            i <= es.len(),
            lookup_outdated(es, name@) == lookup_outdated(es.skip(i as int), name@),
        decreases es.len() - i,
    {
        assert(es.skip(i as int)[0] == es[i as int]);
        assert(es.skip(i as int).drop_first() =~= es.skip(i as int + 1));
        if str_eq(entries[i].0.as_str(), name) {
            return Some(&entries[i].1);
        }
        i = i + 1;
    }
    None
}

/// The result for one installed package: its kind by `is_dev`, checked against
/// its outdated entry (whose current version falls back to the installed one
/// where it is empty), or up to date at its installed version.
pub open spec fn merged_result_ok(r: VersionResult, pkg: InstalledPackage, entry: Option<OutdatedEntry>, source: Seq<char>) -> bool {
    &&& r.dep.ecosystem == Ecosystem::Npm
    &&& r.dep.kind == (if pkg.is_dev { DependencyKind::NpmDevDep } else { DependencyKind::NpmDep })
    &&& r.dep.artifact@ == pkg.name@
    &&& r.dep.property is None
    &&& r.dep.source@ == source
    &&& match entry {
        Some(e) => {
            let current = if e.current@.len() == 0 { pkg.version@ } else { e.current@ };
            &&& r.current_version@ == current
            &&& r.spec_latest() == Some(e.latest@)
            &&& (r.status is Outdated <==> crate::version::spec_is_newer(current, e.latest@))
            &&& (r.status is Outdated || r.status is UpToDate)
        },
        None => {
            &&& r.current_version@ == pkg.version@
            &&& r.status matches VersionStatus::UpToDate { latest } && latest@ == pkg.version@
        },
    }
}

/// Merges installed packages with the outdated entries into one result per
/// installed package, in order.
pub fn merge_results(installed: Vec<InstalledPackage>, outdated: &Vec<(String, OutdatedEntry)>, source: &str) -> (r: Vec<VersionResult>)
    ensures
        r@.len() == installed@.len(),
        forall|i: int| 0 <= i < r@.len() ==> merged_result_ok(#[trigger] r@[i], installed@[i], lookup_outdated(outdated@, installed@[i].name@), source@),
{
    let mut out: Vec<VersionResult> = Vec::new();
    let mut i: usize = 0;
    while i < installed.len()
        invariant
            i <= installed@.len(),
            out@.len() == i,
            forall|k: int| 0 <= k < i ==> merged_result_ok(#[trigger] out@[k], installed@[k], lookup_outdated(outdated@, installed@[k].name@), source@),
        decreases installed@.len() - i,
    {
        let pkg = &installed[i];
        let kind = if pkg.is_dev { DependencyKind::NpmDevDep } else { DependencyKind::NpmDep };
        let id = Dependency::new(Ecosystem::Npm, kind, pkg.name.clone(), None, String::from_str(source));
        let r = match lookup_outdated_exec(outdated, pkg.name.as_str()) {
            Some(entry) => {
                let current = if entry.current.as_str().unicode_len() == 0 {
                    pkg.version.clone()
                } else {
                    entry.current.clone()
                };
                let outdated_now = crate::version::is_newer(current.as_str(), entry.latest.as_str());
                VersionResult::checked(id, current, entry.latest.clone(), outdated_now)
            },
            None => VersionResult::checked(id, pkg.version.clone(), pkg.version.clone(), false),
        };
        out.push(r);
        i = i + 1;
    }
    out
}

// ---------------------------------------------------------------------------
// Project discovery
// ---------------------------------------------------------------------------

/// Directories never searched for projects: package manager internals,
/// caches, build outputs and version control metadata.
pub open spec fn spec_is_skipped_dir(name: Seq<char>) -> bool {
    name == "node_modules"@ || name == ".pnpm-store"@ || name == ".yarn"@ || name == ".bun"@ || name == ".git"@
        || name == "target"@ || name == "dist"@ || name == "build"@
}

/// Whether the directory `name` is skipped during discovery.
pub fn is_skipped_dir(name: &str) -> (b: bool)
    ensures
        b == spec_is_skipped_dir(name@),
{
    str_eq(name, "node_modules") || str_eq(name, ".pnpm-store") || str_eq(name, ".yarn") || str_eq(name, ".bun")
        || str_eq(name, ".git") || str_eq(name, "target") || str_eq(name, "dist") || str_eq(name, "build")
}

/// What a directory with a `package.json` holds that discovery decides on.
#[derive(Debug, Clone)]
pub struct DirFacts {
    pub path: String,
    pub has_pnpm_lock: bool,
    pub has_npm_lock: bool,
    pub has_yarn_lock: bool,
    pub has_bun_lock: bool,
    /// The `packageManager` field of `package.json`, where it is a string.
    pub pm_field: Option<String>,
    pub has_pnpm_workspace: bool,
    /// `package.json` has a `workspaces` field.
    pub has_workspaces_field: bool,
    /// The `name` field of `package.json`, where it is a string.
    pub name: Option<String>,
}

/// The package manager of a directory: by lock file (pnpm, npm, yarn, bun, in
/// that order), else by the `packageManager` field.
pub open spec fn spec_detect_pm(d: DirFacts) -> Option<PackageManager> {
    if d.has_pnpm_lock {
        Some(PackageManager::Pnpm)
    } else if d.has_npm_lock {
        Some(PackageManager::Npm)
    } else if d.has_yarn_lock {
        Some(PackageManager::Yarn)
    } else if d.has_bun_lock {
        Some(PackageManager::Bun)
    } else {
        match d.pm_field {
            Some(f) => match spec_parse_pm_field(f@) {
                Some((pm, _)) => Some(pm),
                None => None,
            },
            None => None,
        }
    }
}

/// The package manager of a directory (see [`spec_detect_pm`]).
pub fn detect_package_manager(d: &DirFacts) -> (r: Option<PackageManager>)
    ensures
        r == spec_detect_pm(*d),
{
    if d.has_pnpm_lock {
        Some(PackageManager::Pnpm)
    } else if d.has_npm_lock {
        Some(PackageManager::Npm)
    } else if d.has_yarn_lock {
        Some(PackageManager::Yarn)
    } else if d.has_bun_lock {
        Some(PackageManager::Bun)
    } else {
        match &d.pm_field {
            Some(f) => match parse_package_manager_field(f.as_str()) {
                Some((pm, _)) => Some(pm),
                None => None,
            },
            None => None,
        }
    }
}

/// A directory is a workspace root: for pnpm it has `pnpm-workspace.yaml`,
/// for the others its `package.json` has a `workspaces` field.
pub open spec fn spec_is_workspace_root(d: DirFacts, pm: PackageManager) -> bool {
    match pm {
        PackageManager::Pnpm => d.has_pnpm_workspace,
        _ => d.has_workspaces_field,
    }
}

/// The paths of the workspace roots among the directories, in order.
pub open spec fn workspace_roots(dirs: Seq<DirFacts>) -> Seq<Seq<char>>
    decreases dirs.len(),
{
    if dirs.len() == 0 {
        Seq::empty()
    } else {
        let rest = workspace_roots(dirs.drop_last());
        let d = dirs.last();
        match spec_detect_pm(d) {
            Some(pm) => if spec_is_workspace_root(d, pm) {
                rest.push(d.path@)
            } else {
                rest
            },
            None => rest,
        }
    }
}

/// The project of a directory: its package manager, its name (its path where
/// `package.json` names none) and the version in its `packageManager` field.
pub open spec fn project_ok(p: NpmProject, d: DirFacts, pm: PackageManager) -> bool {
    &&& p.path@ == d.path@
    &&& p.package_manager == pm
    &&& p.name@ == (match d.name {
        Some(n) => n@,
        None => d.path@,
    })
    &&& opt_view(p.pm_version) == (match d.pm_field {
        Some(f) => match spec_parse_pm_field(f@) {
            Some((_, v)) => Some(v),
            None => None::<Seq<char>>,
        },
        None => None::<Seq<char>>,
    })
}

/// The directories that become projects: those with a package manager that
/// lie inside no workspace root (a root itself stays).
pub open spec fn project_dirs(dirs: Seq<DirFacts>, roots: Seq<Seq<char>>) -> Seq<DirFacts>
    decreases dirs.len(),
{
    if dirs.len() == 0 {
        Seq::empty()
    } else {
        let rest = project_dirs(dirs.drop_last(), roots);
        let d = dirs.last();
        if !spec_is_workspace_member(d.path@, roots) && spec_detect_pm(d) is Some {
            rest.push(d)
        } else {
            rest
        }
    }
}

/// The directories that become projects are exactly those that have a package
/// manager and lie inside no workspace root: a workspace member never becomes a
/// project of its own.
pub proof fn lemma_project_dirs_exact(dirs: Seq<DirFacts>, roots: Seq<Seq<char>>)
    ensures
        forall|d: DirFacts| #[trigger] project_dirs(dirs, roots).contains(d)
            <==> (dirs.contains(d) && !spec_is_workspace_member(d.path@, roots) && spec_detect_pm(d) is Some),
    decreases dirs.len(),
{
    if dirs.len() > 0 {
        let t = dirs.drop_last();
        lemma_project_dirs_exact(t, roots);
        let rest = project_dirs(t, roots);
        let out = project_dirs(dirs, roots);
        assert forall|d: DirFacts| #[trigger] out.contains(d)
            <==> (dirs.contains(d) && !spec_is_workspace_member(d.path@, roots) && spec_detect_pm(d) is Some) by {
            if out.contains(d) {
                let m = choose|m: int| 0 <= m < out.len() && out[m] == d;
                if m < rest.len() {
                    assert(rest.contains(d));
                    let k = choose|k: int| 0 <= k < t.len() && t[k] == d;
                    assert(dirs[k] == d);
                } else {
                    assert(dirs[dirs.len() - 1] == d);
                }
            }
            if dirs.contains(d) && !spec_is_workspace_member(d.path@, roots) && spec_detect_pm(d) is Some {
                let k = choose|k: int| 0 <= k < dirs.len() && dirs[k] == d;
                if k < t.len() {
                    assert(t[k] == d);
                    assert(rest.contains(d));
                    let m = choose|m: int| 0 <= m < rest.len() && rest[m] == d;
                    assert(out[m] == d);
                } else {
                    assert(out[out.len() - 1] == d);
                }
            }
        }
    }
}

/// The projects among the directories found (given in the order to report
/// them): one per directory that has a package manager and lies inside no
/// workspace root.
pub fn discover_projects(dirs: &Vec<DirFacts>) -> (r: Vec<NpmProject>)
    ensures
        r@.len() == project_dirs(dirs@, workspace_roots(dirs@)).len(),
        forall|i: int| 0 <= i < r@.len() ==> {
            let d = project_dirs(dirs@, workspace_roots(dirs@))[i];
            project_ok(#[trigger] r@[i], d, spec_detect_pm(d)->0)
        },
{
    let ghost ds = dirs@;
    let mut roots: Vec<String> = Vec::new();
    let mut i: usize = 0;
    assert(ds.subrange(0, 0) =~= Seq::<DirFacts>::empty());
    while i < dirs.len()
        invariant
            ds == dirs@,
            i <= ds.len(),
            strings_view(roots@) == workspace_roots(ds.subrange(0, i as int)),
        decreases ds.len() - i,
    {
        assert(ds.subrange(0, i as int + 1).drop_last() =~= ds.subrange(0, i as int));
        assert(ds.subrange(0, i as int + 1).last() == ds[i as int]);
        let d = &dirs[i];
        match detect_package_manager(d) {
            Some(pm) => {
                let is_root = match pm {
                    PackageManager::Pnpm => d.has_pnpm_workspace,
                    _ => d.has_workspaces_field,
                };
                if is_root {
                    let ghost before = strings_view(roots@);
                    roots.push(d.path.clone());
                    assert(strings_view(roots@) =~= before.push(d.path@));
                }
            },
            None => {},
        }
        i = i + 1;
    }
    assert(ds.subrange(0, ds.len() as int) =~= ds);
    let ghost rs = strings_view(roots@);
    let mut out: Vec<NpmProject> = Vec::new();
    let mut j: usize = 0;
    assert(project_dirs(ds.subrange(0, 0), rs) =~= Seq::<DirFacts>::empty());
    while j < dirs.len()
        invariant
            ds == dirs@,
            rs == strings_view(roots@),
            rs == workspace_roots(ds),
            j <= ds.len(),
            out@.len() == project_dirs(ds.subrange(0, j as int), rs).len(),
            forall|k: int| 0 <= k < out@.len() ==> {
                let d = project_dirs(ds.subrange(0, j as int), rs)[k];
                project_ok(#[trigger] out@[k], d, spec_detect_pm(d)->0)
            },
        decreases ds.len() - j,
    {
        let ghost pre = project_dirs(ds.subrange(0, j as int), rs);
        assert(ds.subrange(0, j as int + 1).drop_last() =~= ds.subrange(0, j as int));
        assert(ds.subrange(0, j as int + 1).last() == ds[j as int]);
        let d = &dirs[j];
        if !is_workspace_member(d.path.as_str(), &roots) {
            match detect_package_manager(d) {
                Some(pm) => {
                    let name = match &d.name {
                        Some(n) => n.clone(),
                        None => d.path.clone(),
                    };
                    let pm_version = match &d.pm_field {
                        Some(f) => match parse_package_manager_field(f.as_str()) {
                            Some((_, v)) => Some(v),
                            None => None,
                        },
                        None => None,
                    };
                    let p = NpmProject { path: d.path.clone(), name, package_manager: pm, pm_version };
                    out.push(p);
                    assert forall|k: int| 0 <= k < out@.len() implies {
                        let dd = project_dirs(ds.subrange(0, j as int + 1), rs)[k];
                        project_ok(#[trigger] out@[k], dd, spec_detect_pm(dd)->0)
                    } by {
                        if k < pre.len() {
                            assert(project_dirs(ds.subrange(0, j as int + 1), rs)[k] == pre[k]);
                        }
                    }
                },
                None => {},
            }
        }
        j = j + 1;
    }
    assert(ds.subrange(0, ds.len() as int) =~= ds);
    out
}

// ---------------------------------------------------------------------------
// Resolving and updating a project
// ---------------------------------------------------------------------------

/// The single error result a project whose resolution failed reports: an npm
/// dependency named after the project, with the failure as its message.
pub fn project_error_result(project: &NpmProject, root: &str, message: String) -> (r: VersionResult)
    ensures
        r.dep.ecosystem == Ecosystem::Npm,
        r.dep.kind == DependencyKind::NpmDep,
        r.dep.artifact == project.name,
        r.dep.property is None,
        r.dep.source@ == spec_relative_source(project.path@, root@),
        r.current_version@ == Seq::<char>::empty(),
        r.status == (VersionStatus::Error { message }),
{
    let source = project.relative_source(root);
    let id = Dependency::new(Ecosystem::Npm, DependencyKind::NpmDep, project.name.clone(), None, source);
    VersionResult::error(id, String::new(), message)
}

/// The result for a project's own package manager version, given what the
/// registry answered for its package: the `dist-tags.latest` version where it
/// lists one, or the failure of the request.
pub fn check_pm_latest(pm: PackageManager, current: &str, source: &str, answer: Result<Option<String>, String>) -> (r: VersionResult)
    ensures
        r.dep.ecosystem == Ecosystem::Npm,
        r.dep.kind == DependencyKind::Tool,
        r.dep.artifact@ == pm.spec_command(),
        r.dep.property is None,
        r.dep.source@ == source@,
        r.current_version@ == current@,
        match answer {
            Err(e) => r.status == (VersionStatus::Error { message: e }),
            Ok(None) => r.status matches VersionStatus::Error { message } && message@ == "No latest version found for "@
                + pm.spec_command(),
            Ok(Some(l)) => r.spec_latest() == Some(l@) && (r.status is Outdated <==> crate::version::spec_is_newer(current@, l@))
                && (r.status is Outdated || r.status is UpToDate),
        },
{
    let id = Dependency::new(Ecosystem::Npm, DependencyKind::Tool, String::from_str(pm.command()), None, String::from_str(source));
    match answer {
        Err(e) => VersionResult::error(id, String::from_str(current), e),
        Ok(None) => {
            let mut m = String::from_str("No latest version found for ");
            m.append(pm.command());
            VersionResult::error(id, String::from_str(current), m)
        },
        Ok(Some(l)) => {
            let outdated = crate::version::is_newer(current, l.as_str());
            VersionResult::checked(id, String::from_str(current), l, outdated)
        },
    }
}

/// `r` is placed after the results whose artifact is not above its own.
pub open spec fn insert_result(s: Seq<VersionResult>, r: VersionResult) -> Seq<VersionResult>
    decreases s.len(),
{
    if s.len() == 0 {
        seq![r]
    } else if crate::discovery::seq_le(s.last().dep.artifact@, r.dep.artifact@) {
        s.push(r)
    } else {
        insert_result(s.drop_last(), r).push(s.last())
    }
}

/// The results ordered by artifact; equal artifacts keep their order.
pub open spec fn sort_results(s: Seq<VersionResult>) -> Seq<VersionResult>
    decreases s.len(),
{
    if s.len() == 0 {
        s
    } else {
        insert_result(sort_results(s.drop_last()), s.last())
    }
}

proof fn lemma_insert_result(s: Seq<VersionResult>, r: VersionResult, j: int)
    requires
        0 <= j <= s.len(),
        forall|k: int| j <= k < s.len() ==> !crate::discovery::seq_le((#[trigger] s[k]).dep.artifact@, r.dep.artifact@),
        j == 0 || crate::discovery::seq_le(s[j - 1].dep.artifact@, r.dep.artifact@),
    ensures
        insert_result(s, r) == s.insert(j, r),
    decreases s.len(),
{
    if s.len() == 0 {
        assert(s.insert(j, r) =~= seq![r]);
    } else if j == s.len() {
        assert(s.insert(j, r) =~= s.push(r));
    } else {
        let t = s.drop_last();
        lemma_insert_result(t, r, j);
        assert(s.insert(j, r) =~= t.insert(j, r).push(s.last()));
    }
}

/// A project's results: the package results with the package manager's own
/// result where there is one, ordered by artifact.
pub fn finish_project_results(results: Vec<VersionResult>, pm_result: Option<VersionResult>) -> (r: Vec<VersionResult>)
    ensures
        r@ == sort_results(match pm_result {
            Some(p) => results@.push(p),
            None => results@,
        }),
{
    let mut all = results;
    match pm_result {
        Some(p) => all.push(p),
        None => {},
    }
    let ghost input = all@;
    let mut rev = crate::text::reverse_vec(all);
    assert(rev@.reverse() =~= input);
    let mut out: Vec<VersionResult> = Vec::new();
    let ghost mut done: int = 0;
    assert(out@ =~= sort_results(input.subrange(0, 0)));
    while rev.len() > 0
        invariant
            0 <= done <= input.len(),
            rev@.reverse() == input.subrange(done, input.len() as int),
            out@ == sort_results(input.subrange(0, done)),
        decreases rev@.len(),
    {
        let ghost before = rev@;
        let x = rev.pop().unwrap();
        proof {
            assert(before.reverse()[0] == x);
            assert(before.reverse().len() == before.len());
            assert(done < input.len());
            assert(input.subrange(done, input.len() as int)[0] == input[done]);
            assert(rev@.reverse() =~= before.reverse().drop_first());
            assert(input.subrange(done + 1, input.len() as int) =~= input.subrange(done, input.len() as int).drop_first());
        }
        let ghost o = out@;
        let mut j: usize = out.len();
        while j > 0 && !crate::discovery::str_le_exec(out[j - 1].dep.artifact.as_str(), x.dep.artifact.as_str())
            invariant
                j <= out@.len(),
                o == out@,
                forall|k: int| j <= k < o.len() ==> !crate::discovery::seq_le((#[trigger] o[k]).dep.artifact@, x.dep.artifact@),
            decreases j,
        {
            j = j - 1;
        }
        proof {
            lemma_insert_result(o, x, j as int);
            assert(input.subrange(0, done + 1).drop_last() =~= input.subrange(0, done));
            assert(input.subrange(0, done + 1).last() == x);
            done = done + 1;
        }
        out.insert(j, x);
    }
    assert(input.subrange(0, input.len() as int) =~= input);
    out
}

/// Version results compare by artifact.
pub open spec fn result_artifact_le() -> spec_fn(VersionResult, VersionResult) -> bool {
    by_key(|r: VersionResult| r.dep.artifact@)
}

proof fn lemma_insert_result_by(s: Seq<VersionResult>, r: VersionResult)
    ensures
        insert_result(s, r) == insert_by(s, r, result_artifact_le()),
    decreases s.len(),
{
    if s.len() > 0 {
        lemma_insert_result_by(s.drop_last(), r);
    }
}

proof fn lemma_sort_results_by(s: Seq<VersionResult>)
    ensures
        sort_results(s) == insertion_sort(s, result_artifact_le()),
    decreases s.len(),
{
    if s.len() > 0 {
        lemma_sort_results_by(s.drop_last());
        lemma_insert_result_by(sort_results(s.drop_last()), s.last());
    }
}

/// A project's results come in artifact order and hold the results that went
/// in, each as often as before.
pub proof fn lemma_sorted_results_ordered(s: Seq<VersionResult>)
    ensures
        forall|i: int, j: int| 0 <= i < j < sort_results(s).len()
            ==> crate::discovery::seq_le(#[trigger] sort_results(s)[i].dep.artifact@, #[trigger] sort_results(s)[j].dep.artifact@),
        sort_results(s).to_multiset() == s.to_multiset(),
{
    lemma_key_order_total(|r: VersionResult| r.dep.artifact@);
    lemma_sort_results_by(s);
    lemma_insertion_sort(s, result_artifact_le());
    let r = sort_results(s);
    assert forall|i: int, j: int| 0 <= i < j < r.len()
        implies crate::discovery::seq_le(#[trigger] r[i].dep.artifact@, #[trigger] r[j].dep.artifact@) by {
        assert(result_artifact_le()(r[i], r[j]));
    }
}

/// The outdated results of a project split into its package manager's own
/// version (tool results) and its packages, each in order.
pub fn split_tool_versions(outdated: &Vec<VersionResult>) -> (r: (Vec<VersionResult>, Vec<VersionResult>))
    ensures
        r.0@ == crate::command::select(outdated@, |x: VersionResult| x.dep.kind == DependencyKind::Tool),
        r.1@ == crate::command::select(outdated@, |x: VersionResult| x.dep.kind != DependencyKind::Tool),
{
    let ghost all = outdated@;
    let mut tools: Vec<VersionResult> = Vec::new();
    let mut packages: Vec<VersionResult> = Vec::new();
    let mut i: usize = 0;
    while i < outdated.len()
        invariant
            all == outdated@,
            i <= all.len(),
            tools@ == crate::command::select(all.subrange(0, i as int), |x: VersionResult| x.dep.kind == DependencyKind::Tool),
            packages@ == crate::command::select(all.subrange(0, i as int), |x: VersionResult| x.dep.kind != DependencyKind::Tool),
        decreases all.len() - i,
    {
        assert(all.subrange(0, i as int + 1).drop_last() =~= all.subrange(0, i as int));
        if outdated[i].dep.kind == DependencyKind::Tool {
            tools.push(outdated[i].copy());
        } else {
            packages.push(outdated[i].copy());
        }
        i = i + 1;
    }
    assert(all.subrange(0, all.len() as int) =~= all);
    (tools, packages)
}

/// The update results of a project's packages once its package manager's
/// update command ran: each updated to its latest version (empty where it
/// has none), or each failed with the command's error.
pub fn package_update_results(packages: &Vec<VersionResult>, outcome: &Result<(), String>) -> (r: Vec<UpdateResult>)
    ensures
        r@.len() == packages@.len(),
        forall|i: int| 0 <= i < r@.len() ==> {
            &&& (#[trigger] r@[i]).dep == packages@[i].dep
            &&& r@[i].old_version == packages@[i].current_version
            &&& match outcome {
                Ok(_) => r@[i].status is Updated && r@[i].new_version@ == crate::updater::latest_of(packages@[i]),
                Err(e) => r@[i].status == (UpdateStatus::Error { message: *e }),
            }
        },
{
    let mut out: Vec<UpdateResult> = Vec::new();
    let mut i: usize = 0;
    while i < packages.len()
        invariant
            i <= packages@.len(),
            out@.len() == i,
            forall|k: int| 0 <= k < i ==> {
                &&& (#[trigger] out@[k]).dep == packages@[k].dep
                &&& out@[k].old_version == packages@[k].current_version
                &&& match outcome {
                    Ok(_) => out@[k].status is Updated && out@[k].new_version@ == crate::updater::latest_of(packages@[k]),
                    Err(e) => out@[k].status == (UpdateStatus::Error { message: *e }),
                }
            },
        decreases packages@.len() - i,
    {
        let r = &packages[i];
        let u = match outcome {
            Ok(_) => {
                let latest = match r.latest_version() {
                    Some(l) => String::from_str(l),
                    None => String::new(),
                };
                UpdateResult::updated(r, latest)
            },
            Err(e) => UpdateResult::error(r, e.clone()),
        };
        out.push(u);
        i = i + 1;
    }
    out
}

/// The `packageManager` value for version `version` of `pm`.
pub fn pm_field_value(pm: PackageManager, version: &str) -> (s: String)
    ensures
        s@ == pm.spec_command() + "@"@ + version@,
{
    let mut s = String::from_str(pm.command());
    s.append("@");
    s.append(version);
    s
}

/// The version a package manager's own result is updated to: its latest
/// version, where it has a non-empty one.
pub fn pm_update_target(r: &VersionResult) -> (t: Option<String>)
    ensures
        match t {
            Some(v) => r.spec_latest() == Some(v@) && v@.len() > 0,
            None => r.spec_latest() is None || r.spec_latest() == Some(Seq::<char>::empty()),
        },
{
    match r.latest_version() {
        Some(l) => if l.unicode_len() > 0 {
            Some(String::from_str(l))
        } else {
            None
        },
        None => None,
    }
}

/// The update result of a package manager's own version: without a target
/// version it fails as having none; otherwise it is updated, or fails with
/// the error of rewriting `package.json`.
pub fn pm_update_result(r: &VersionResult, target: &Option<String>, outcome: &Result<(), String>) -> (u: UpdateResult)
    ensures
        u.dep == r.dep,
        u.old_version == r.current_version,
        match target {
            None => u.status matches UpdateStatus::Error { message } && message@ == "No latest version available"@,
            Some(v) => match outcome {
                Ok(_) => u.status is Updated && u.new_version@ == v@,
                Err(e) => u.status == (UpdateStatus::Error { message: *e }),
            },
        },
{
    match target {
        None => UpdateResult::error(r, String::from_str("No latest version available")),
        Some(v) => match outcome {
            Ok(_) => UpdateResult::updated(r, v.clone()),
            Err(e) => UpdateResult::error(r, e.clone()),
        },
    }
}

/// The outdated entry of a row of `yarn outdated`'s table (package, current,
/// wanted, latest, ...); `None` for a row with fewer than four cells.
pub fn yarn_outdated_entry(row: &Vec<String>) -> (r: Option<(String, OutdatedEntry)>)
    ensures
        match r {
            Some((name, e)) => row@.len() >= 4 && name == row@[0] && e.current == row@[1] && e.latest == row@[3],
            None => row@.len() < 4,
        },
{
    if row.len() >= 4 {
        Some((row[0].clone(), OutdatedEntry { current: row[1].clone(), latest: row[3].clone() }))
    } else {
        None
    }
}

// ---------------------------------------------------------------------------
// What the package managers list
// ---------------------------------------------------------------------------

/// The views of a list of string pairs.
pub open spec fn pairs_view(v: Seq<(String, String)>) -> Seq<(Seq<char>, Seq<char>)> {
    v.map_values(|p: (String, String)| (p.0@, p.1@))
}

/// `p` is the installed package `name` at `version`, a dev dependency or not.
pub open spec fn installed_as(p: InstalledPackage, name: Seq<char>, version: Seq<char>, is_dev: bool) -> bool {
    p.name@ == name && p.version@ == version && p.is_dev == is_dev
}

fn name_listed(names: &Vec<String>, name: &str) -> (b: bool)
    ensures
        b == strings_view(names@).contains(name@),
{
    let mut i: usize = 0;
    while i < names.len()
        invariant
            i <= names@.len(),
            forall|j: int| 0 <= j < i ==> #[trigger] strings_view(names@)[j] != name@,
        decreases names@.len() - i,
    {
        if str_eq(names[i].as_str(), name) {
            assert(strings_view(names@)[i as int] == name@);
            return true;
        }
        i = i + 1;
    }
    false
}

/// The packages a list names, each with its version, a dev dependency where
/// `package.json` lists it under `devDependencies` (`dev_names`): how the
/// listings of npm and yarn are read.
pub fn classify_installed(listed: &Vec<(String, String)>, dev_names: &Vec<String>) -> (r: Vec<InstalledPackage>)
    ensures
        r@.len() == listed@.len(),
        forall|i: int| 0 <= i < r@.len() ==> installed_as(
            #[trigger] r@[i],
            listed@[i].0@,
            listed@[i].1@,
            strings_view(dev_names@).contains(listed@[i].0@),
        ),
{
    let mut out: Vec<InstalledPackage> = Vec::new();
    let mut i: usize = 0;
    while i < listed.len()
        invariant
            i <= listed@.len(),
            out@.len() == i,
            forall|k: int| 0 <= k < i ==> installed_as(
                #[trigger] out@[k],
                listed@[k].0@,
                listed@[k].1@,
                strings_view(dev_names@).contains(listed@[k].0@),
            ),
        decreases listed@.len() - i,
    {
        let (name, version) = &listed[i];
        let is_dev = name_listed(dev_names, name.as_str());
        out.push(InstalledPackage { name: name.clone(), version: version.clone(), is_dev });
        i = i + 1;
    }
    out
}

/// The packages of a `dependencies` and a `devDependencies` section, in that
/// order, those of the second as dev dependencies: how pnpm's listing and
/// bun's `package.json` are read.
pub fn installed_from_sections(deps: &Vec<(String, String)>, dev_deps: &Vec<(String, String)>) -> (r: Vec<InstalledPackage>)
    ensures
        r@.len() == deps@.len() + dev_deps@.len(),
        forall|i: int| 0 <= i < deps@.len() ==> installed_as(#[trigger] r@[i], deps@[i].0@, deps@[i].1@, false),
        forall|i: int| 0 <= i < dev_deps@.len() ==> installed_as(#[trigger] r@[deps@.len() + i], dev_deps@[i].0@, dev_deps@[i].1@, true),
{
    let mut out: Vec<InstalledPackage> = Vec::new();
    let mut i: usize = 0;
    while i < deps.len()
        invariant
            i <= deps@.len(),
            out@.len() == i,
            forall|k: int| 0 <= k < i ==> installed_as(#[trigger] out@[k], deps@[k].0@, deps@[k].1@, false),
        decreases deps@.len() - i,
    {
        out.push(InstalledPackage { name: deps[i].0.clone(), version: deps[i].1.clone(), is_dev: false });
        i = i + 1;
    }
    let mut j: usize = 0;
    while j < dev_deps.len()
        invariant
            j <= dev_deps@.len(),
            out@.len() == deps@.len() + j,
            forall|k: int| 0 <= k < deps@.len() ==> installed_as(#[trigger] out@[k], deps@[k].0@, deps@[k].1@, false),
            forall|k: int| 0 <= k < j ==> installed_as(#[trigger] out@[deps@.len() + k], dev_deps@[k].0@, dev_deps@[k].1@, true),
        decreases dev_deps@.len() - j,
    {
        out.push(InstalledPackage { name: dev_deps[j].0.clone(), version: dev_deps[j].1.clone(), is_dev: true });
        j = j + 1;
    }
    out
}

/// The packages named by a list of yarn tree entries, those that parse as
/// `package@version`, in order.
pub open spec fn spec_tree_entries(names: Seq<Seq<char>>) -> Seq<(Seq<char>, Seq<char>)>
    decreases names.len(),
{
    if names.len() == 0 {
        Seq::empty()
    } else {
        let rest = spec_tree_entries(names.drop_last());
        match spec_parse_tree_name(names.last()) {
            Some(pv) => rest.push(pv),
            None => rest,
        }
    }
}

/// The packages of the `tree` lines of `yarn list --json` (each line given by
/// its type and its tree entries' names), in order.
pub open spec fn spec_yarn_tree(lines: Seq<(Seq<char>, Seq<Seq<char>>)>) -> Seq<(Seq<char>, Seq<char>)>
    decreases lines.len(),
{
    if lines.len() == 0 {
        Seq::empty()
    } else {
        let rest = spec_yarn_tree(lines.drop_last());
        if lines.last().0 == "tree"@ {
            rest + spec_tree_entries(lines.last().1)
        } else {
            rest
        }
    }
}

/// The views of yarn lines with their tree entries' names.
pub open spec fn tree_lines_view(v: Seq<(String, Vec<String>)>) -> Seq<(Seq<char>, Seq<Seq<char>>)> {
    v.map_values(|l: (String, Vec<String>)| (l.0@, strings_view(l.1@)))
}

fn tree_entries(names: &Vec<String>, out: &mut Vec<(String, String)>)
    ensures
        pairs_view(final(out)@) == pairs_view(old(out)@) + spec_tree_entries(strings_view(names@)),
{
    let ghost start = pairs_view(out@);
    let ghost ns = strings_view(names@);
    let mut i: usize = 0;
    assert(ns.subrange(0, 0) =~= Seq::<Seq<char>>::empty());
    assert(pairs_view(out@) =~= start + spec_tree_entries(ns.subrange(0, 0)));
    while i < names.len()
        invariant
            ns == strings_view(names@),
            i <= ns.len(),
            pairs_view(out@) == start + spec_tree_entries(ns.subrange(0, i as int)),
        decreases ns.len() - i,
    {
        assert(ns.subrange(0, i as int + 1).drop_last() =~= ns.subrange(0, i as int));
        assert(ns.subrange(0, i as int + 1).last() == names@[i as int]@);
        match parse_tree_name(names[i].as_str()) {
            Some(pv) => {
                let ghost before = pairs_view(out@);
                out.push(pv);
                assert(pairs_view(out@) =~= before.push((out@.last().0@, out@.last().1@)));
            },
            None => {},
        }
        i = i + 1;
    }
    assert(ns.subrange(0, ns.len() as int) =~= ns);
}

/// The packages that the `tree` lines of `yarn list --json` name, each line
/// given by its type and its tree entries' names; other lines are skipped.
pub fn yarn_tree_packages(lines: &Vec<(String, Vec<String>)>) -> (r: Vec<(String, String)>)
    ensures
        pairs_view(r@) == spec_yarn_tree(tree_lines_view(lines@)),
{
    let ghost lv = tree_lines_view(lines@);
    let mut out: Vec<(String, String)> = Vec::new();
    let mut i: usize = 0;
    assert(lv.subrange(0, 0) =~= Seq::<(Seq<char>, Seq<Seq<char>>)>::empty());
    assert(pairs_view(out@) =~= spec_yarn_tree(lv.subrange(0, 0)));
    while i < lines.len()
        invariant
            lv == tree_lines_view(lines@),
            i <= lv.len(),
            pairs_view(out@) == spec_yarn_tree(lv.subrange(0, i as int)),
        decreases lv.len() - i,
    {
        assert(lv.subrange(0, i as int + 1).drop_last() =~= lv.subrange(0, i as int));
        assert(lv.subrange(0, i as int + 1).last() == lv[i as int]);
        if str_eq(lines[i].0.as_str(), "tree") {
            tree_entries(&lines[i].1, &mut out);
        }
        i = i + 1;
    }
    assert(lv.subrange(0, lv.len() as int) =~= lv);
    out
}

/// The entries of a table's rows, those with at least four cells, in order.
pub open spec fn spec_row_entries(rows: Seq<Vec<String>>) -> Seq<(String, OutdatedEntry)>
    decreases rows.len(),
{
    if rows.len() == 0 {
        Seq::empty()
    } else {
        let rest = spec_row_entries(rows.drop_last());
        let row = rows.last()@;
        if row.len() >= 4 {
            rest.push((row[0], OutdatedEntry { current: row[1], latest: row[3] }))
        } else {
            rest
        }
    }
}

/// The outdated entries of the `table` lines of `yarn outdated --json`, each
/// line given by its type and its table rows; other lines are skipped.
pub open spec fn spec_yarn_outdated(lines: Seq<(String, Vec<Vec<String>>)>) -> Seq<(String, OutdatedEntry)>
    decreases lines.len(),
{
    if lines.len() == 0 {
        Seq::empty()
    } else {
        let rest = spec_yarn_outdated(lines.drop_last());
        if lines.last().0@ == "table"@ {
            rest + spec_row_entries(lines.last().1@)
        } else {
            rest
        }
    }
}

fn row_entries(rows: &Vec<Vec<String>>, out: &mut Vec<(String, OutdatedEntry)>)
    ensures
        final(out)@ == old(out)@ + spec_row_entries(rows@),
{
    let ghost start = out@;
    let mut i: usize = 0;
    assert(rows@.subrange(0, 0) =~= Seq::<Vec<String>>::empty());
    assert(out@ =~= start + spec_row_entries(rows@.subrange(0, 0)));
    while i < rows.len()
        invariant
            i <= rows@.len(),
            out@ == start + spec_row_entries(rows@.subrange(0, i as int)),
        decreases rows@.len() - i,
    {
        assert(rows@.subrange(0, i as int + 1).drop_last() =~= rows@.subrange(0, i as int));
        assert(rows@.subrange(0, i as int + 1).last() == rows@[i as int]);
        match yarn_outdated_entry(&rows[i]) {
            Some(e) => {
                let ghost before = out@;
                out.push(e);
                assert(out@ =~= before.push(e));
            },
            None => {},
        }
        i = i + 1;
    }
    assert(rows@.subrange(0, rows@.len() as int) =~= rows@);
}

/// The outdated entries that the `table` lines of `yarn outdated --json` list:
/// of each row with at least four cells, its package, current and latest
/// version; other lines are skipped.
pub fn yarn_outdated_packages(lines: &Vec<(String, Vec<Vec<String>>)>) -> (r: Vec<(String, OutdatedEntry)>)
    ensures
        r@ == spec_yarn_outdated(lines@),
{
    let mut out: Vec<(String, OutdatedEntry)> = Vec::new();
    let mut i: usize = 0;
    assert(lines@.subrange(0, 0) =~= Seq::<(String, Vec<Vec<String>>)>::empty());
    while i < lines.len()
        invariant
            i <= lines@.len(),
            out@ == spec_yarn_outdated(lines@.subrange(0, i as int)),
        decreases lines@.len() - i,
    {
        assert(lines@.subrange(0, i as int + 1).drop_last() =~= lines@.subrange(0, i as int));
        assert(lines@.subrange(0, i as int + 1).last() == lines@[i as int]);
        if str_eq(lines[i].0.as_str(), "table") {
            row_entries(&lines[i].1, &mut out);
        }
        i = i + 1;
    }
    assert(lines@.subrange(0, lines@.len() as int) =~= lines@);
    out
}

// ---------------------------------------------------------------------------
// Laws
// ---------------------------------------------------------------------------

/// The first `@` of `s` at or after `from`, where `s` has none from `from` up to `at`.
proof fn lemma_find_char_at(s: Seq<char>, c: char, from: int, at: int)
    requires
        0 <= from <= at < s.len(),
        s[at] == c,
        forall|i: int| from <= i < at ==> s[i] != c,
    ensures
        find_char_from(s, c, from) == Some(at),
    decreases at - from,
{
    if from < at {
        lemma_find_char_at(s, c, from + 1, at);
    }
}

/// `s` has no `c` from `from` on.
proof fn lemma_find_char_none(s: Seq<char>, c: char, from: int)
    requires
        0 <= from,
        forall|i: int| from <= i < s.len() ==> s[i] != c,
    ensures
        find_char_from(s, c, from) is None,
    decreases s.len() - from,
{
    if from < s.len() {
        lemma_find_char_none(s, c, from + 1);
    }
}

/// A `packageManager` value written as `<command>@<version>`, with no `+` in the
/// version, reads back as that package manager and version.
pub proof fn lemma_package_manager_field_round_trip(pm: PackageManager, version: Seq<char>)
    requires
        !version.contains('+'),
    ensures
        spec_parse_pm_field(pm.spec_command() + seq!['@'] + version) == Some((pm, version)),
{
    let name = pm.spec_command();
    let v = name + seq!['@'] + version;
    reveal_strlit("npm");
    reveal_strlit("pnpm");
    reveal_strlit("yarn");
    reveal_strlit("bun");
    assert(v[name.len() as int] == '@');
    assert forall|i: int| 0 <= i < name.len() implies v[i] != '@' by {
        assert(v[i] == name[i]);
    }
    lemma_find_char_at(v, '@', 0, name.len() as int);
    let rest = v.subrange(name.len() as int + 1, v.len() as int);
    assert(rest =~= version);
    assert forall|i: int| 0 <= i < version.len() implies version[i] != '+' by {
        if version[i] == '+' {
            assert(version.contains('+'));
        }
    }
    lemma_find_char_none(version, '+', 0);
    assert(v.subrange(0, name.len() as int) =~= name);
}

/// The last `@` of `s` before `end` is at `at`, where none lies between them.
proof fn lemma_find_last_at(s: Seq<char>, end: int, at: int)
    requires
        0 <= at < end <= s.len(),
        s[at] == '@',
        forall|i: int| at < i < end ==> s[i] != '@',
    ensures
        find_last_at(s, end) == Some(at),
    decreases end,
{
    if end - 1 > at {
        lemma_find_last_at(s, end - 1, at);
    }
}

/// A tree entry `<package>@<version>`, with a version that holds no `@`, reads
/// back as that package and version.
pub proof fn lemma_tree_name_round_trip(package: Seq<char>, version: Seq<char>)
    requires
        package.len() > 0,
        version.len() > 0,
        !version.contains('@'),
    ensures
        spec_parse_tree_name(package + seq!['@'] + version) == Some((package, version)),
{
    let s = package + seq!['@'] + version;
    let at = package.len() as int;
    assert(s[at] == '@');
    assert forall|i: int| at < i < s.len() implies s[i] != '@' by {
        assert(s[i] == version[i - at - 1]);
        if s[i] == '@' {
            assert(version.contains('@'));
        }
    }
    lemma_find_last_at(s, s.len() as int, at);
    assert(s.subrange(0, at) =~= package);
    assert(s.subrange(at + 1, s.len() as int) =~= version);
}

} // verus!
