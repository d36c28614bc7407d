//! Result filtering driven by the command-line flags.
//!
//! Filters compose: ecosystem, kind, outdated, stable, managed, include and
//! exclude can be combined freely, and a result must pass every active one.
//! Include and exclude patterns are globs (`*`) matched against the artifact
//! (Maven `groupId:artifactId` or npm package name).

use vstd::prelude::*;

use crate::glob::{glob_matches, spec_glob_matches};
use crate::model::{DependencyInfo, DependencyKind, Ecosystem, Severity, VersionResult, VersionStatus};

verus! {

/// Which dependency kind(s) to include in the output.
#[derive(Debug, Clone, Copy, PartialEq, Eq, Structural)]
pub enum KindFilter {
    Dependencies,
    Plugins,
    DevDeps,
    Tools,
}

impl KindFilter {
    pub open spec fn spec_matches(self, kind: DependencyKind) -> bool {
        match self {
            KindFilter::Dependencies => kind == DependencyKind::Dependency || kind
                == DependencyKind::NpmDep,
            KindFilter::Plugins => kind == DependencyKind::Plugin,
            KindFilter::DevDeps => kind == DependencyKind::NpmDevDep,
            KindFilter::Tools => kind == DependencyKind::Tool,
        }
    }

    /// Whether a dependency of kind `kind` belongs to this group; Maven dependencies
    /// and npm runtime dependencies both count as dependencies.
    pub fn matches(self, kind: DependencyKind) -> (b: bool)
        ensures
            b == self.spec_matches(kind),
    {
        match self {
            KindFilter::Dependencies => kind == DependencyKind::Dependency || kind
                == DependencyKind::NpmDep,
            KindFilter::Plugins => kind == DependencyKind::Plugin,
            KindFilter::DevDeps => kind == DependencyKind::NpmDevDep,
            KindFilter::Tools => kind == DependencyKind::Tool,
        }
    }
}

/// Composite filter built from the command-line flags.
///
/// All active criteria must match for a result to pass; `None` and empty
/// lists mean no filter on that dimension.
#[derive(Debug, Clone)]
pub struct Filter {
    pub outdated: bool,
    pub stable: bool,
    pub managed: Option<bool>,
    pub ecosystem: Option<Ecosystem>,
    pub kind: Option<KindFilter>,
    pub includes: Vec<String>,
    pub excludes: Vec<String>,
    pub severity: Option<Severity>,
    pub vulnerable: bool,
}

impl Default for Filter {
    fn default() -> (f: Self)
        ensures
            f.is_empty(),
    {
        Filter {
            outdated: false,
            stable: false,
            managed: None,
            ecosystem: None,
            kind: None,
            includes: Vec::new(),
            excludes: Vec::new(),
            severity: None,
            vulnerable: false,
        }
    }
}

/// The filter-related flags of a command line, as given.
#[derive(Debug, Clone)]
pub struct FilterFlags {
    pub outdated: bool,
    pub stable: bool,
    pub managed: bool,
    pub unmanaged: bool,
    pub maven: bool,
    pub npm: bool,
    pub dependencies: bool,
    pub plugins: bool,
    pub dev_deps: bool,
    pub tools: bool,
    pub vulnerable: bool,
    pub severity: Option<String>,
    pub includes: Vec<String>,
    pub excludes: Vec<String>,
}

impl Filter {
    /// The filter the flags ask for: `--managed` before `--unmanaged`, `--maven`
    /// before `--npm`, and of the kind flags the first of dependencies, plugins,
    /// dev dependencies and tools; a severity label read ignoring case.
    pub fn from_flags(flags: FilterFlags) -> (f: Filter)
        ensures
            f.outdated == flags.outdated,
            f.stable == flags.stable,
            f.managed == (if flags.managed { Some(true) } else if flags.unmanaged { Some(false) } else { None::<bool> }),
            f.ecosystem == (if flags.maven { Some(Ecosystem::Maven) } else if flags.npm { Some(Ecosystem::Npm) } else { None::<Ecosystem> }),
            f.kind == (if flags.dependencies {
                Some(KindFilter::Dependencies)
            } else if flags.plugins {
                Some(KindFilter::Plugins)
            } else if flags.dev_deps {
                Some(KindFilter::DevDeps)
            } else if flags.tools {
                Some(KindFilter::Tools)
            } else {
                None::<KindFilter>
            }),
            f.severity == (match flags.severity {
                Some(s) => Some(Severity::spec_from_upper(crate::text::uppercase_of(s@))),
                None => None::<Severity>,
            }),
            (flags.severity is Some && crate::text::all_ascii(flags.severity->0@))
                ==> f.severity == Some(Severity::spec_from_upper(crate::text::ascii_upper(flags.severity->0@))),
            f.includes == flags.includes,
            f.excludes == flags.excludes,
            f.vulnerable == flags.vulnerable,
    {
        let managed = if flags.managed {
            Some(true)
        } else if flags.unmanaged {
            Some(false)
        } else {
            None
        };
        let ecosystem = if flags.maven {
            Some(Ecosystem::Maven)
        } else if flags.npm {
            Some(Ecosystem::Npm)
        } else {
            None
        };
        let kind = if flags.dependencies {
            Some(KindFilter::Dependencies)
        } else if flags.plugins {
            Some(KindFilter::Plugins)
        } else if flags.dev_deps {
            Some(KindFilter::DevDeps)
        } else if flags.tools {
            Some(KindFilter::Tools)
        } else {
            None
        };
        let severity = match &flags.severity {
            Some(s) => Some(Severity::from_str_label(s.as_str())),
            None => None,
        };
        Filter {
            outdated: flags.outdated,
            stable: flags.stable,
            managed,
            ecosystem,
            kind,
            includes: flags.includes,
            excludes: flags.excludes,
            severity,
            vulnerable: flags.vulnerable,
        }
    }
}

/// Some pattern in `patterns` matches `artifact`.
pub open spec fn any_pattern_matches(patterns: Seq<String>, artifact: Seq<char>) -> bool {
    exists|i: int| 0 <= i < patterns.len() && spec_glob_matches(#[trigger] patterns[i]@, artifact)
}

fn any_matches(patterns: &Vec<String>, artifact: &str) -> (b: bool)
    ensures
        b == any_pattern_matches(patterns@, artifact@),
{
    let mut i: usize = 0;
    while i < patterns.len()
        invariant
            i <= patterns@.len(),
            forall|j: int| 0 <= j < i ==> !spec_glob_matches(#[trigger] patterns@[j]@, artifact@),
        decreases patterns@.len() - i,
    {
        if glob_matches(patterns[i].as_str(), artifact) {
            return true;
        }
        i = i + 1;
    }
    false
}

impl Filter {
    /// No criterion is active.
    pub open spec fn is_empty(self) -> bool {
        &&& !self.outdated
        &&& !self.stable
        &&& self.managed is None
        &&& self.ecosystem is None
        &&& self.kind is None
        &&& self.includes@.len() == 0
        &&& self.excludes@.len() == 0
        &&& self.severity is None
        &&& !self.vulnerable
    }

    pub open spec fn spec_matches_severity(self, severity: Severity) -> bool {
        match self.severity {
            Some(min) => severity.spec_rank() >= min.spec_rank(),
            None => true,
        }
    }

    /// Whether `severity` meets the minimum threshold, if one is set.
    pub fn matches_severity(&self, severity: Severity) -> (b: bool)
        ensures
            b == self.spec_matches_severity(severity),
    {
        match self.severity {
            Some(min) => severity.at_least(&min),
            None => true,
        }
    }

    /// The criteria a result must pass.
    pub open spec fn spec_matches(self, r: VersionResult) -> bool {
        &&& self.outdated ==> r.status is Outdated
        &&& self.stable ==> !(r.status is Skipped)
        &&& self.managed matches Some(m) ==> (r.dep.ecosystem == Ecosystem::Maven ==> (
        r.dep.property is Some) == m)
        &&& self.ecosystem matches Some(e) ==> r.dep.ecosystem == e
        &&& self.kind matches Some(k) ==> k.spec_matches(r.dep.kind)
        &&& self.includes@.len() > 0 ==> any_pattern_matches(self.includes@, r.dep.artifact@)
        &&& !any_pattern_matches(self.excludes@, r.dep.artifact@)
    }

    /// Whether the result passes every active criterion. The managed/unmanaged
    /// criterion applies to Maven results only; npm results pass it regardless.
    pub fn matches(&self, result: &VersionResult) -> (b: bool)
        ensures
            b == self.spec_matches(*result),
    {
        if self.outdated && !result.is_outdated() {
            return false;
        }
        if self.stable && result.is_skipped() {
            return false;
        }
        if let Some(managed) = self.managed {
            if result.ecosystem() == Ecosystem::Maven && result.has_property() != managed {
                return false;
            }
        }
        if let Some(ecosystem) = self.ecosystem {
            if result.ecosystem() != ecosystem {
                return false;
            }
        }
        if let Some(kind) = self.kind {
            if !kind.matches(result.kind()) {
                return false;
            }
        }
        if self.includes.len() > 0 && !any_matches(&self.includes, result.artifact()) {
            return false;
        }
        if any_matches(&self.excludes, result.artifact()) {
            return false;
        }
        true
    }
}

/// A filter with no active criterion lets every result through.
pub proof fn lemma_empty_filter_matches_every_result(f: Filter, r: VersionResult)
    requires
        f.is_empty(),
    ensures
        f.spec_matches(r),
{
}

/// A result whose artifact matches an exclude pattern never passes, whatever
/// else the filter asks for.
pub proof fn lemma_exclude_wins(f: Filter, r: VersionResult, i: int)
    requires
        0 <= i < f.excludes@.len(),
        spec_glob_matches(f.excludes@[i]@, r.dep.artifact@),
    ensures
        !f.spec_matches(r),
{
}

/// A severity that meets the threshold keeps meeting it when it rises.
pub proof fn lemma_severity_threshold_monotone(f: Filter, low: Severity, high: Severity)
    requires
        f.spec_matches_severity(low),
        high.spec_rank() >= low.spec_rank(),
    ensures
        f.spec_matches_severity(high),
{
}

} // verus!
