//! Maven version resolution: `maven-metadata.xml`, version filtering, and the
//! decisions of resolving one artifact.
//!
//! Resolving an artifact alternates network requests and decisions: the
//! current version may be skipped; Maven Central is asked first; on a miss the
//! custom repositories for the artifact's kind are asked; the versions found
//! are filtered and the latest is compared with the current one. The requests
//! are made by the caller; each decision is a function here that takes what the
//! last request returned.

use vstd::prelude::*;

use crate::discovery::{coordinates, seq_le, ArtifactMapping, MappingView};
use crate::model::{Dependency, DependencyKind, Ecosystem, VersionResult, VersionStatus};
use crate::pom::{opt_view, path_ends_in, path_has, pom_local_name, strings_view, ArtifactKind, Repository, RepositoryKind};
use crate::text::{lowercase_of, spec_trim, str_eq, to_lowercase, trim};
use crate::version::{contains_seq, spec_find_latest, spec_is_newer, spec_is_pre_release};
use crate::xml::{read_tokens, token_views, xml_tokens, TokenView, XmlToken};

verus! {

// ---------------------------------------------------------------------------
// maven-metadata.xml
// ---------------------------------------------------------------------------

/// The metadata scan's state between two tokens.
pub struct MetadataScan {
    pub path: Seq<Seq<char>>,
    pub text: Seq<char>,
    pub versions: Seq<Seq<char>>,
}

/// The element is a `<version>` inside `<versions>`, at depth three or more.
pub open spec fn is_listed_version(path: Seq<Seq<char>>) -> bool {
    path.len() >= 3 && path_ends_in(path, "version"@) && path_has(path, "versions"@)
}

/// What one token does to the metadata scan; `None` ends it (at the end of the
/// document or at a syntax error).
pub open spec fn metadata_step(s: MetadataScan, t: TokenView) -> Option<MetadataScan> {
    match t {
        TokenView::Start { name, .. } => Some(MetadataScan { path: s.path.push(pom_local_name(name)), text: Seq::empty(), ..s }),
        TokenView::End { .. } => {
            let v = spec_trim(s.text);
            let versions = if is_listed_version(s.path) && v.len() > 0 { s.versions.push(v) } else { s.versions };
            Some(MetadataScan {
                path: if s.path.len() > 0 { s.path.drop_last() } else { s.path },
                text: Seq::empty(),
                versions,
            })
        },
        TokenView::Text { text } => match text {
            Some(t) => Some(MetadataScan { text: s.text + t, ..s }),
            None => Some(s),
        },
        TokenView::Eof => None,
        TokenView::Error { .. } => None,
    }
}

/// The versions listed by the tokens, scanning from state `s`.
pub open spec fn metadata_run(s: MetadataScan, tokens: Seq<TokenView>) -> Seq<Seq<char>>
    decreases tokens.len(),
{
    if tokens.len() == 0 {
        s.versions
    } else {
        match metadata_step(s, tokens[0]) {
            Some(s2) => metadata_run(s2, tokens.drop_first()),
            None => s.versions,
        }
    }
}

/// The trimmed, non-empty `<version>` texts inside `<versions>`, in document
/// order, up to the end of the document or the first syntax error.
pub open spec fn spec_metadata_versions(tokens: Seq<TokenView>) -> Seq<Seq<char>> {
    metadata_run(MetadataScan { path: Seq::empty(), text: Seq::empty(), versions: Seq::empty() }, tokens)
}

fn path_contains_exec(path: &Vec<String>, name: &str) -> (b: bool)
    ensures
        b == path_has(strings_view(path@), name@),
{
    let mut i: usize = 0;
    while i < path.len()
        invariant
            i <= path@.len(),
            forall|j: int| 0 <= j < i ==> #[trigger] strings_view(path@)[j] != name@,
        decreases path@.len() - i,
    {
        if str_eq(path[i].as_str(), name) {
            assert(strings_view(path@)[i as int] == name@);
            return true;
        }
        i = i + 1;
    }
    false
}

/// Lists the versions of a `maven-metadata.xml` token list.
pub fn metadata_versions_from_tokens(tokens: &Vec<XmlToken>) -> (r: Vec<String>)
    ensures
        strings_view(r@) == spec_metadata_versions(token_views(tokens@)),
{
    let ghost views = token_views(tokens@);
    let mut path: Vec<String> = Vec::new();
    let mut text = String::new();
    let mut versions: Vec<String> = Vec::new();
    proof {
        assert(strings_view(path@) =~= Seq::<Seq<char>>::empty());
        assert(strings_view(versions@) =~= Seq::<Seq<char>>::empty());
        assert(views.skip(0) =~= views);
    }
    let mut i: usize = 0;
    while i < tokens.len()
        invariant
            views == token_views(tokens@),
            i <= tokens@.len(),
            metadata_run(
                MetadataScan { path: strings_view(path@), text: text@, versions: strings_view(versions@) },
                views.skip(i as int),
            ) == spec_metadata_versions(views),
        decreases tokens@.len() - i,
    {
        assert(views.skip(i as int)[0] == tokens@[i as int]@);
        assert(views.skip(i as int).drop_first() =~= views.skip(i as int + 1));
        match &tokens[i] {
            XmlToken::Start { name, .. } => {
                let local = crate::pom::pom_local_name_exec(name);
                let ghost before = strings_view(path@);
                path.push(local);
                assert(strings_view(path@) =~= before.push(pom_local_name(name@)));
                text = String::new();
            },
            XmlToken::End { .. } => {
                let listed = path.len() >= 3 && path.len() > 0 && str_eq(path[path.len() - 1].as_str(), "version")
                    && path_contains_exec(&path, "versions");
                let v = trim(text.as_str());
                if listed && v.as_str().unicode_len() > 0 {
                    let ghost before = strings_view(versions@);
                    versions.push(v);
                    assert(strings_view(versions@) =~= before.push(spec_trim(text@)));
                }
                text = String::new();
                if path.len() > 0 {
                    let ghost before = strings_view(path@);
                    path.pop();
                    assert(strings_view(path@) =~= before.drop_last());
                }
            },
            XmlToken::Text { text: t } => match t {
                Some(t) => {
                    text.append(t.as_str());
                },
                None => {},
            },
            XmlToken::Eof => {
                return versions;
            },
            XmlToken::Error { .. } => {
                return versions;
            },
        }
        i = i + 1;
    }
    versions
}

/// Parses the `<version>` elements of a `maven-metadata.xml` response: what
/// [`metadata_versions_from_tokens`] makes of its token list.
pub fn parse_metadata_versions(xml: &str) -> (r: Vec<String>)
    ensures
        strings_view(r@) == spec_metadata_versions(xml_tokens(xml@)),
{
    let tokens = read_tokens(xml);
    metadata_versions_from_tokens(&tokens)
}

// ---------------------------------------------------------------------------
// Version filtering
// ---------------------------------------------------------------------------

/// A version survives the filter: it is no snapshot (`snapshot` in its lower
/// case) and, where only releases are wanted, no pre-release.
pub open spec fn keeps_version(v: Seq<char>, releases_only: bool) -> bool {
    !contains_seq(lowercase_of(v), "snapshot"@) && !(releases_only && spec_is_pre_release(v))
}

/// The versions that survive the filter, in order.
pub open spec fn spec_filter_versions(versions: Seq<Seq<char>>, releases_only: bool) -> Seq<Seq<char>>
    decreases versions.len(),
{
    if versions.len() == 0 {
        Seq::empty()
    } else {
        let rest = spec_filter_versions(versions.drop_last(), releases_only);
        if keeps_version(versions.last(), releases_only) {
            rest.push(versions.last())
        } else {
            rest
        }
    }
}

/// Filters out snapshots always, and pre-releases when `releases_only` is set.
pub fn filter_versions(versions: &Vec<String>, releases_only: bool) -> (r: Vec<String>)
    ensures
        strings_view(r@) == spec_filter_versions(strings_view(versions@), releases_only),
        forall|k: int| 0 <= k < versions@.len() && crate::text::all_ascii(#[trigger] versions@[k]@)
            ==> lowercase_of(versions@[k]@) == crate::text::ascii_lower(versions@[k]@),
{
    let ghost vs = strings_view(versions@);
    let mut out: Vec<String> = Vec::new();
    let mut i: usize = 0;
    assert(strings_view(out@) =~= spec_filter_versions(vs.subrange(0, 0), releases_only));
    while i < versions.len()
        invariant
            vs == strings_view(versions@),
            i <= vs.len(),
            strings_view(out@) == spec_filter_versions(vs.subrange(0, i as int), releases_only),
            forall|k: int| 0 <= k < i && crate::text::all_ascii(#[trigger] versions@[k]@)
                ==> lowercase_of(versions@[k]@) == crate::text::ascii_lower(versions@[k]@),
        decreases vs.len() - i,
    {
        let v = &versions[i];
        assert(vs.subrange(0, i as int + 1).drop_last() =~= vs.subrange(0, i as int));
        assert(vs.subrange(0, i as int + 1).last() == v@);
        let lower = crate::text::chars_of(to_lowercase(v.as_str()).as_str());
        let snapshot = crate::version::contains_chars(&lower, "snapshot");
        if !snapshot && !(releases_only && crate::version::is_pre_release(v.as_str())) {
            let ghost before = strings_view(out@);
            out.push(v.clone());
            assert(strings_view(out@) =~= before.push(v@));
        }
        i = i + 1;
    }
    assert(vs.subrange(0, vs.len() as int) =~= vs);
    out
}

/// What survives the filter is exactly the versions that it keeps: no snapshot
/// ever, no pre-release where only releases are wanted, and everything else.
pub proof fn lemma_filter_versions_exact(versions: Seq<Seq<char>>, releases_only: bool)
    ensures
        forall|v: Seq<char>| #[trigger] spec_filter_versions(versions, releases_only).contains(v)
            <==> (versions.contains(v) && keeps_version(v, releases_only)),
    decreases versions.len(),
{
    if versions.len() > 0 {
        let t = versions.drop_last();
        lemma_filter_versions_exact(t, releases_only);
        let rest = spec_filter_versions(t, releases_only);
        let out = spec_filter_versions(versions, releases_only);
        assert forall|v: Seq<char>| #[trigger] out.contains(v) <==> (versions.contains(v) && keeps_version(v, releases_only)) by {
            if out.contains(v) {
                let m = choose|m: int| 0 <= m < out.len() && out[m] == v;
                if m < rest.len() {
                    assert(rest.contains(v));
                    let k = choose|k: int| 0 <= k < t.len() && t[k] == v;
                    assert(versions[k] == v);
                } else {
                    assert(versions[versions.len() - 1] == v);
                }
            }
            if versions.contains(v) && keeps_version(v, releases_only) {
                let k = choose|k: int| 0 <= k < versions.len() && versions[k] == v;
                if k < t.len() {
                    assert(t[k] == v);
                    assert(rest.contains(v));
                    let m = choose|m: int| 0 <= m < rest.len() && rest[m] == v;
                    assert(out[m] == v);
                } else {
                    assert(out[out.len() - 1] == v);
                }
            }
        }
    }
}

/// The latest version that resolution reports is one of the versions found;
/// it is no snapshot, and no pre-release where only releases are wanted; and
/// no other version found that passes the same filter is newer.
pub proof fn lemma_reported_latest_passes_filter(all: Seq<Seq<char>>, releases_only: bool)
    ensures
        match spec_find_latest(spec_filter_versions(all, releases_only)) {
            Some(l) => all.contains(l) && keeps_version(l, releases_only) && forall|v: Seq<char>|
                #![trigger all.contains(v), keeps_version(v, releases_only)]
                all.contains(v) && keeps_version(v, releases_only) ==> !spec_is_newer(l, v),
            None => true,
        },
{
    let f = spec_filter_versions(all, releases_only);
    lemma_filter_versions_exact(all, releases_only);
    crate::version::lemma_find_latest_is_newest(f);
    match spec_find_latest(f) {
        Some(l) => {
            assert(f.contains(l));
            assert forall|v: Seq<char>| #![trigger all.contains(v), keeps_version(v, releases_only)]
                all.contains(v) && keeps_version(v, releases_only) implies !spec_is_newer(l, v) by {
                assert(f.contains(v));
                let i = choose|i: int| 0 <= i < f.len() && f[i] == v;
                assert(!spec_is_newer(l, f[i]));
            }
        },
        None => {},
    }
}

/// The strings without the later repetitions of each.
pub open spec fn unique_strings(s: Seq<Seq<char>>) -> Seq<Seq<char>>
    decreases s.len(),
{
    if s.len() == 0 {
        s
    } else {
        let d = unique_strings(s.drop_last());
        if s.drop_last().contains(s.last()) {
            d
        } else {
            d.push(s.last())
        }
    }
}

/// `s` with `x` placed after the last element not above it.
pub open spec fn insert_string(s: Seq<Seq<char>>, x: Seq<char>) -> Seq<Seq<char>>
    decreases s.len(),
{
    if s.len() == 0 {
        seq![x]
    } else if seq_le(s.last(), x) {
        s.push(x)
    } else {
        insert_string(s.drop_last(), x).push(s.last())
    }
}

/// The strings in ascending order (code point order, as `str`'s `Ord` sorts).
pub open spec fn sort_strings(s: Seq<Seq<char>>) -> Seq<Seq<char>>
    decreases s.len(),
{
    if s.len() == 0 {
        s
    } else {
        insert_string(sort_strings(s.drop_last()), s.last())
    }
}

/// The distinct strings in ascending order.
pub open spec fn sorted_unique(s: Seq<Seq<char>>) -> Seq<Seq<char>> {
    sort_strings(unique_strings(s))
}

proof fn lemma_unique_contains(s: Seq<Seq<char>>, x: Seq<char>)
    ensures
        unique_strings(s).contains(x) == s.contains(x),
    decreases s.len(),
{
    if s.len() > 0 {
        let t = s.drop_last();
        lemma_unique_contains(t, x);
        let d = unique_strings(t);
        if s.contains(x) {
            let j = choose|j: int| 0 <= j < s.len() && s[j] == x;
            if j < t.len() {
                assert(t[j] == x);
            } else if !t.contains(s.last()) {
                assert(d.push(s.last())[d.len() as int] == x);
            }
        }
        if t.contains(x) {
            let j = choose|j: int| 0 <= j < t.len() && t[j] == x;
            assert(s[j] == x);
        }
        if !t.contains(s.last()) {
            let e = d.push(s.last());
            if e.contains(x) {
                let j = choose|j: int| 0 <= j < e.len() && e[j] == x;
                if j < d.len() {
                    assert(d[j] == x);
                } else {
                    assert(s[s.len() - 1] == x);
                }
            }
            if d.contains(x) {
                let j = choose|j: int| 0 <= j < d.len() && d[j] == x;
                assert(e[j] == x);
            }
        }
    }
}

proof fn lemma_insert_string(s: Seq<Seq<char>>, x: Seq<char>, j: int)
    requires
        0 <= j <= s.len(),
        forall|k: int| j <= k < s.len() ==> !seq_le(#[trigger] s[k], x),
        j == 0 || seq_le(s[j - 1], x),
    ensures
        insert_string(s, x) == s.insert(j, x),
    decreases s.len(),
{
    if s.len() == 0 {
        assert(s.insert(j, x) =~= seq![x]);
    } else if j == s.len() {
        assert(s.insert(j, x) =~= s.push(x));
    } else {
        let t = s.drop_last();
        lemma_insert_string(t, x, j);
        assert(s.insert(j, x) =~= t.insert(j, x).push(s.last()));
    }
}

/// The distinct version strings in ascending byte order (what sorting and then
/// removing adjacent repetitions gives).
pub fn sort_dedup_versions(v: Vec<String>) -> (r: Vec<String>)
    ensures
        strings_view(r@) == sorted_unique(strings_view(v@)),
{
    let ghost input = strings_view(v@);
    let mut unique: Vec<String> = Vec::new();
    let mut i: usize = 0;
    assert(input.subrange(0, 0) =~= Seq::<Seq<char>>::empty());
    assert(strings_view(unique@) =~= unique_strings(input.subrange(0, 0)));
    while i < v.len()
        invariant
            input == strings_view(v@),
            i <= input.len(),
            strings_view(unique@) == unique_strings(input.subrange(0, i as int)),
        decreases input.len() - i,
    {
        let x = &v[i];
        let ghost u = strings_view(unique@);
        let ghost prefix = input.subrange(0, i as int);
        proof {
            lemma_unique_contains(prefix, x@);
            assert(input.subrange(0, i as int + 1).drop_last() =~= prefix);
            assert(input.subrange(0, i as int + 1).last() == x@);
        }
        let mut seen = false;
        let mut j: usize = 0;
        while j < unique.len()
            invariant
                j <= unique@.len(),
                u == strings_view(unique@),
                seen == exists|m: int| 0 <= m < j && u[m] == x@,
            decreases unique@.len() - j,
        {
            assert(u[j as int] == unique@[j as int]@);
            if str_eq(unique[j].as_str(), x.as_str()) {
                seen = true;
            }
            j = j + 1;
        }
        assert(seen == u.contains(x@));
        if !seen {
            unique.push(x.clone());
            assert(strings_view(unique@) =~= u.push(x@));
        }
        i = i + 1;
    }
    assert(input.subrange(0, input.len() as int) =~= input);
    let ghost uq = strings_view(unique@);
    let mut out: Vec<String> = Vec::new();
    let mut k: usize = 0;
    assert(uq.subrange(0, 0) =~= Seq::<Seq<char>>::empty());
    assert(strings_view(out@) =~= sort_strings(uq.subrange(0, 0)));
    while k < unique.len()
        invariant
            uq == strings_view(unique@),
            k <= uq.len(),
            strings_view(out@) == sort_strings(uq.subrange(0, k as int)),
        decreases uq.len() - k,
    {
        let x = &unique[k];
        let ghost o = strings_view(out@);
        let mut j: usize = out.len();
        while j > 0 && !crate::discovery::str_le_exec(out[j - 1].as_str(), x.as_str())
            invariant
                j <= out@.len(),
                o == strings_view(out@),
                forall|m: int| j <= m < o.len() ==> !seq_le(#[trigger] o[m], x@),
            decreases j,
        {
            j = j - 1;
        }
        proof {
            lemma_insert_string(o, x@, j as int);
            assert(uq.subrange(0, k as int + 1).drop_last() =~= uq.subrange(0, k as int));
            assert(uq.subrange(0, k as int + 1).last() == x@);
        }
        out.insert(j, x.clone());
        assert(strings_view(out@) =~= o.insert(j as int, x@));
        k = k + 1;
    }
    assert(uq.subrange(0, uq.len() as int) =~= uq);
    out
}

} // verus!

verus! {

// ---------------------------------------------------------------------------
// Resolving one artifact
// ---------------------------------------------------------------------------

/// The dependency kind of an artifact kind.
pub open spec fn spec_dependency_kind(kind: ArtifactKind) -> DependencyKind {
    match kind {
        ArtifactKind::Dependency => DependencyKind::Dependency,
        ArtifactKind::Plugin => DependencyKind::Plugin,
    }
}

/// The dependency kind of an artifact kind.
pub fn dependency_kind(kind: ArtifactKind) -> (k: DependencyKind)
    ensures
        k == spec_dependency_kind(kind),
{
    match kind {
        ArtifactKind::Dependency => DependencyKind::Dependency,
        ArtifactKind::Plugin => DependencyKind::Plugin,
    }
}

/// `d` identifies the artifact of mapping `m`, found in `source`.
pub open spec fn identifies(d: Dependency, m: MappingView, source: Seq<char>) -> bool {
    &&& d.ecosystem == Ecosystem::Maven
    &&& d.kind == spec_dependency_kind(m.kind)
    &&& d.artifact@ == coordinates(m.group_id, m.artifact_id)
    &&& (d.property is Some <==> m.has_version_property)
    &&& (m.has_version_property ==> d.property->0@ == m.property.name)
    &&& d.source@ == source
}

/// The dependency of a mapping: Maven, its kind, `groupId:artifactId`, its
/// version property where it has one, and the given source.
pub fn dependency_from_mapping(mapping: &ArtifactMapping, source: &str) -> (d: Dependency)
    ensures
        identifies(d, mapping@, source@),
{
    let artifact = crate::discovery::concat3(mapping.group_id.as_str(), ":", mapping.artifact_id.as_str());
    let property = if mapping.has_version_property {
        Some(mapping.property.name.clone())
    } else {
        None
    };
    Dependency::new(Ecosystem::Maven, dependency_kind(mapping.kind), artifact, property, String::from_str(source))
}

/// The URLs of the repositories that serve an artifact kind: standard
/// repositories for dependencies, plugin repositories for plugins.
pub open spec fn spec_repo_urls(repos: Seq<crate::pom::RepositoryView>, kind: ArtifactKind) -> Seq<Seq<char>>
    decreases repos.len(),
{
    if repos.len() == 0 {
        Seq::empty()
    } else {
        let rest = spec_repo_urls(repos.drop_last(), kind);
        let r = repos.last();
        let serves = match kind {
            ArtifactKind::Dependency => r.kind == RepositoryKind::Standard,
            ArtifactKind::Plugin => r.kind == RepositoryKind::Plugin,
        };
        if serves {
            rest.push(r.url)
        } else {
            rest
        }
    }
}

/// Resolves Maven artifact versions against Maven Central and the custom
/// repositories declared in the POMs.
#[derive(Debug)]
pub struct MavenVersionResolver {
    pub releases_only: bool,
    pub repositories: Vec<Repository>,
}

/// The message for an artifact no repository lists versions of.
pub open spec fn no_versions_message(artifact: Seq<char>) -> Seq<char> {
    "No versions found for "@ + artifact
}

/// The message for an artifact whose versions are all filtered out.
pub open spec fn no_release_message(artifact: Seq<char>) -> Seq<char> {
    "No release versions found for "@ + artifact
}

/// The message for an artifact none of whose versions parses.
pub open spec fn no_latest_message(artifact: Seq<char>) -> Seq<char> {
    "Could not determine latest version for "@ + artifact
}

/// What to do after Maven Central answered.
#[derive(Debug)]
pub enum CentralOutcome {
    /// Central listed versions: use them.
    Versions(Vec<String>),
    /// Central listed none: ask these custom repositories.
    AskRepositories(Vec<String>),
    /// Nothing more to ask: this is the result.
    Finished(VersionResult),
}

fn message_with(prefix: &str, artifact: &str) -> (s: String)
    ensures
        s@ == prefix@ + artifact@,
{
    let mut s = String::from_str(prefix);
    s.append(artifact);
    s
}

impl MavenVersionResolver {
    pub fn new(releases_only: bool, repositories: Vec<Repository>) -> (r: Self)
        ensures
            r.releases_only == releases_only,
            r.repositories == repositories,
    {
        MavenVersionResolver { releases_only, repositories }
    }

    /// The URLs of the custom repositories that serve artifacts of `kind`.
    pub fn repo_urls_for(&self, kind: ArtifactKind) -> (r: Vec<String>)
        ensures
            strings_view(r@) == spec_repo_urls(crate::discovery::repo_views(self.repositories@), kind),
    {
        let ghost rs = crate::discovery::repo_views(self.repositories@);
        let mut out: Vec<String> = Vec::new();
        let mut i: usize = 0;
        assert(rs.subrange(0, 0) =~= Seq::<crate::pom::RepositoryView>::empty());
        assert(strings_view(out@) =~= spec_repo_urls(rs.subrange(0, 0), kind));
        while i < self.repositories.len()
            invariant
                rs == crate::discovery::repo_views(self.repositories@),
                i <= rs.len(),
                strings_view(out@) == spec_repo_urls(rs.subrange(0, i as int), kind),
            decreases rs.len() - i,
        {
            let r = &self.repositories[i];
            assert(rs.subrange(0, i as int + 1).drop_last() =~= rs.subrange(0, i as int));
            assert(rs.subrange(0, i as int + 1).last() == r@);
            let serves = match kind {
                ArtifactKind::Dependency => r.kind == RepositoryKind::Standard,
                ArtifactKind::Plugin => r.kind == RepositoryKind::Plugin,
            };
            if serves {
                let ghost before = strings_view(out@);
                out.push(r.url.clone());
                assert(strings_view(out@) =~= before.push(r.url@));
            }
            i = i + 1;
        }
        assert(rs.subrange(0, rs.len() as int) =~= rs);
        out
    }

    /// The first decision: with only releases wanted, a current version that is
    /// a pre-release is skipped without asking any repository.
    pub fn resolve_start(&self, mapping: &ArtifactMapping, source: &str) -> (r: Option<VersionResult>)
        ensures
            r is Some <==> self.releases_only && spec_is_pre_release(mapping.property.current_value@),
            r matches Some(v) ==> identifies(v.dep, mapping@, source@) && v.current_version@
                == mapping.property.current_value@ && v.status is Skipped,
    {
        if self.releases_only && crate::version::is_pre_release(mapping.property.current_value.as_str()) {
            let id = dependency_from_mapping(mapping, source);
            Some(VersionResult::skipped(id, mapping.property.current_value.clone()))
        } else {
            None
        }
    }

    /// The decision after Maven Central answered with `central` (its versions,
    /// or the description of its failure).
    ///
    /// Versions from Central are used as they are; otherwise the custom
    /// repositories for the artifact's kind are asked, and where there are none
    /// the result is an error: Central's failure, or that no versions exist.
    pub fn after_central(&self, mapping: &ArtifactMapping, source: &str, central: Result<Vec<String>, String>) -> (r: CentralOutcome)
        ensures
            ({
                let urls = spec_repo_urls(crate::discovery::repo_views(self.repositories@), mapping.kind);
                let artifact = coordinates(mapping.group_id@, mapping.artifact_id@);
                match central {
                    Ok(v) => if v@.len() > 0 {
                        r matches CentralOutcome::Versions(w) && w@ == v@
                    } else if urls.len() > 0 {
                        r matches CentralOutcome::AskRepositories(u) && strings_view(u@) == urls
                    } else {
                        (r matches CentralOutcome::Finished(res) && identifies(res.dep, mapping@, source@)
                            && res.current_version@ == mapping.property.current_value@
                            && (res.status matches VersionStatus::Error { message } && message@ == no_versions_message(artifact)))
                    },
                    Err(e) => if urls.len() > 0 {
                        r matches CentralOutcome::AskRepositories(u) && strings_view(u@) == urls
                    } else {
                        (r matches CentralOutcome::Finished(res) && identifies(res.dep, mapping@, source@)
                            && res.current_version@ == mapping.property.current_value@
                            && (res.status matches VersionStatus::Error { message } && message@ == e@))
                    },
                }
            }),
    {
        let failure = match central {
            Ok(v) => {
                if v.len() > 0 {
                    return CentralOutcome::Versions(v);
                }
                None
            },
            Err(e) => Some(e),
        };
        let urls = self.repo_urls_for(mapping.kind);
        if urls.len() > 0 {
            return CentralOutcome::AskRepositories(urls);
        }
        let id = dependency_from_mapping(mapping, source);
        let current = mapping.property.current_value.clone();
        let message = match failure {
            Some(e) => e,
            None => {
                let artifact = crate::discovery::concat3(mapping.group_id.as_str(), ":", mapping.artifact_id.as_str());
                message_with("No versions found for ", artifact.as_str())
            },
        };
        CentralOutcome::Finished(VersionResult::error(id, current, message))
    }

    /// The decision after the custom repositories answered: the versions they
    /// list, merged, sorted and without repetitions; an error where none lists
    /// any (failed requests count as listing none).
    pub fn after_repositories(&self, mapping: &ArtifactMapping, source: &str, answers: Vec<Result<Vec<String>, String>>) -> (r: Result<Vec<String>, VersionResult>)
        ensures
            ({
                let merged = merge_answers(answers@);
                if merged.len() > 0 {
                    r matches Ok(v) && strings_view(v@) == sorted_unique(merged)
                } else {
                    (r matches Err(res) && identifies(res.dep, mapping@, source@)
                        && res.current_version@ == mapping.property.current_value@
                        && (res.status matches VersionStatus::Error { message }
                        && message@ == no_versions_message(coordinates(mapping.group_id@, mapping.artifact_id@))))
                }
            }),
    {
        let ghost a = answers@;
        let mut merged: Vec<String> = Vec::new();
        let mut i: usize = 0;
        assert(a.subrange(0, 0) =~= Seq::<Result<Vec<String>, String>>::empty());
        assert(strings_view(merged@) =~= merge_answers(a.subrange(0, 0)));
        while i < answers.len()
            invariant
                a == answers@,
                i <= a.len(),
                strings_view(merged@) == merge_answers(a.subrange(0, i as int)),
            decreases a.len() - i,
        {
            assert(a.subrange(0, i as int + 1).drop_last() =~= a.subrange(0, i as int));
            assert(a.subrange(0, i as int + 1).last() == a[i as int]);
            match &answers[i] {
                Ok(v) => {
                    let mut j: usize = 0;
                    let ghost start = strings_view(merged@);
                    while j < v.len()
                        invariant
                            j <= v@.len(),
                            strings_view(merged@) == start + strings_view(v@).subrange(0, j as int),
                        decreases v@.len() - j,
                    {
                        let ghost before = strings_view(merged@);
                        merged.push(v[j].clone());
                        assert(strings_view(merged@) =~= before.push(v@[j as int]@));
                        assert(strings_view(v@).subrange(0, j as int + 1) =~= strings_view(v@).subrange(0, j as int).push(v@[j as int]@));
                        j = j + 1;
                    }
                    assert(strings_view(v@).subrange(0, v@.len() as int) =~= strings_view(v@));
                },
                Err(_) => {},
            }
            i = i + 1;
        }
        assert(a.subrange(0, a.len() as int) =~= a);
        if merged.len() == 0 {
            let id = dependency_from_mapping(mapping, source);
            let artifact = crate::discovery::concat3(mapping.group_id.as_str(), ":", mapping.artifact_id.as_str());
            return Err(VersionResult::error(id, mapping.property.current_value.clone(), message_with("No versions found for ", artifact.as_str())));
        }
        Ok(sort_dedup_versions(merged))
    }

    /// The last decision, on all the versions found: they are filtered, the
    /// latest is compared with the current version.
    pub fn finish(&self, mapping: &ArtifactMapping, source: &str, all_versions: &Vec<String>) -> (r: VersionResult)
        ensures
            identifies(r.dep, mapping@, source@),
            r.current_version@ == mapping.property.current_value@,
            ({
                let filtered = spec_filter_versions(strings_view(all_versions@), self.releases_only);
                let artifact = coordinates(mapping.group_id@, mapping.artifact_id@);
                let current = mapping.property.current_value@;
                if filtered.len() == 0 {
                    (r.status matches VersionStatus::Error { message } && message@ == no_release_message(artifact))
                } else {
                    match spec_find_latest(filtered) {
                        None => (r.status matches VersionStatus::Error { message } && message@ == no_latest_message(artifact)),
                        Some(l) => r.spec_latest() == Some(l) && (r.status is Outdated <==> spec_is_newer(current, l))
                            && (r.status is Outdated || r.status is UpToDate),
                    }
                }
            }),
    {
        let id = dependency_from_mapping(mapping, source);
        let current = mapping.property.current_value.clone();
        let filtered = filter_versions(all_versions, self.releases_only);
        let artifact = crate::discovery::concat3(mapping.group_id.as_str(), ":", mapping.artifact_id.as_str());
        if filtered.len() == 0 {
            return VersionResult::error(id, current, message_with("No release versions found for ", artifact.as_str()));
        }
        match crate::version::find_latest(&filtered) {
            None => VersionResult::error(id, current, message_with("Could not determine latest version for ", artifact.as_str())),
            Some(latest) => {
                let outdated = crate::version::is_newer(current.as_str(), latest.as_str());
                VersionResult::checked(id, current, latest, outdated)
            },
        }
    }
}

/// The versions of the answers that succeeded, in order.
pub open spec fn merge_answers(answers: Seq<Result<Vec<String>, String>>) -> Seq<Seq<char>>
    decreases answers.len(),
{
    if answers.len() == 0 {
        Seq::empty()
    } else {
        let rest = merge_answers(answers.drop_last());
        match answers.last() {
            Ok(v) => rest + strings_view(v@),
            Err(_) => rest,
        }
    }
}

// ---------------------------------------------------------------------------
// Laws of the version list
// ---------------------------------------------------------------------------

/// Each string comes strictly before the ones after it.
pub open spec fn strictly_ascending(s: Seq<Seq<char>>) -> bool {
    forall|i: int, j: int| 0 <= i < j < s.len() ==> seq_le(#[trigger] s[i], #[trigger] s[j]) && s[i] != s[j]
}

/// No string occurs twice.
pub open spec fn no_repeats(s: Seq<Seq<char>>) -> bool {
    forall|i: int, j: int| 0 <= i < j < s.len() ==> #[trigger] s[i] != #[trigger] s[j]
}

proof fn lemma_insert_contains(s: Seq<Seq<char>>, x: Seq<char>, y: Seq<char>)
    ensures
        insert_string(s, x).contains(y) == (s.contains(y) || y == x),
    decreases s.len(),
{
    if s.len() == 0 {
        assert(insert_string(s, x)[0] == x);
    } else if seq_le(s.last(), x) {
        let r = s.push(x);
        if s.contains(y) {
            let k = choose|k: int| 0 <= k < s.len() && s[k] == y;
            assert(r[k] == y);
        }
        if y == x {
            assert(r[s.len() as int] == x);
        }
        if r.contains(y) {
            let k = choose|k: int| 0 <= k < r.len() && r[k] == y;
            if k < s.len() {
                assert(s[k] == y);
            }
        }
    } else {
        let t = s.drop_last();
        lemma_insert_contains(t, x, y);
        let it = insert_string(t, x);
        let r = it.push(s.last());
        if s.contains(y) {
            let k = choose|k: int| 0 <= k < s.len() && s[k] == y;
            if k < t.len() {
                assert(t[k] == y);
                assert(it.contains(y));
                let m = choose|m: int| 0 <= m < it.len() && it[m] == y;
                assert(r[m] == y);
            } else {
                assert(r[it.len() as int] == y);
            }
        }
        if y == x {
            assert(it.contains(y));
            let m = choose|m: int| 0 <= m < it.len() && it[m] == y;
            assert(r[m] == y);
        }
        if r.contains(y) {
            let k = choose|k: int| 0 <= k < r.len() && r[k] == y;
            if k < it.len() {
                assert(it[k] == y);
                if t.contains(y) {
                    let m = choose|m: int| 0 <= m < t.len() && t[m] == y;
                    assert(s[m] == y);
                }
            } else {
                assert(s[s.len() - 1] == y);
            }
        }
    }
}

proof fn lemma_sort_contains(s: Seq<Seq<char>>, y: Seq<char>)
    ensures
        sort_strings(s).contains(y) == s.contains(y),
    decreases s.len(),
{
    if s.len() > 0 {
        let t = s.drop_last();
        lemma_sort_contains(t, y);
        lemma_insert_contains(sort_strings(t), s.last(), y);
        if s.contains(y) {
            let k = choose|k: int| 0 <= k < s.len() && s[k] == y;
            if k < t.len() {
                assert(t[k] == y);
            }
        }
        if t.contains(y) {
            let k = choose|k: int| 0 <= k < t.len() && t[k] == y;
            assert(s[k] == y);
        }
    }
}

proof fn lemma_insert_ascending(s: Seq<Seq<char>>, x: Seq<char>)
    requires
        strictly_ascending(s),
        !s.contains(x),
    ensures
        strictly_ascending(insert_string(s, x)),
    decreases s.len(),
{
    if s.len() == 0 {
    } else if seq_le(s.last(), x) {
        let r = s.push(x);
        assert forall|i: int, j: int| 0 <= i < j < r.len() implies seq_le(#[trigger] r[i], #[trigger] r[j]) && r[i] != r[j] by {
            if j == s.len() {
                if i < s.len() - 1 {
                    crate::discovery::lemma_seq_le_trans(s[i], s.last(), x);
                }
                assert(s[i] != x);
            }
        }
    } else {
        let t = s.drop_last();
        let last = s.last();
        assert(strictly_ascending(t)) by {
            assert forall|i: int, j: int| 0 <= i < j < t.len() implies seq_le(#[trigger] t[i], #[trigger] t[j]) && t[i] != t[j] by {
                assert(s[i] == t[i] && s[j] == t[j]);
            }
        }
        assert(!t.contains(x)) by {
            if t.contains(x) {
                let k = choose|k: int| 0 <= k < t.len() && t[k] == x;
                assert(s[k] == x);
            }
        }
        lemma_insert_ascending(t, x);
        let it = insert_string(t, x);
        let r = it.push(last);
        crate::discovery::lemma_seq_le_total(last);
        assert forall|i: int, j: int| 0 <= i < j < r.len() implies seq_le(#[trigger] r[i], #[trigger] r[j]) && r[i] != r[j] by {
            if j == it.len() {
                let e = it[i];
                assert(it.contains(e));
                lemma_insert_contains(t, x, e);
                if e == x {
                    assert(s[s.len() - 1] == last);
                } else {
                    let k = choose|k: int| 0 <= k < t.len() && t[k] == e;
                    assert(s[k] == e);
                    assert(seq_le(s[k], s[s.len() - 1]) && s[k] != s[s.len() - 1]);
                }
            }
        }
    }
}

proof fn lemma_sort_ascending(s: Seq<Seq<char>>)
    requires
        no_repeats(s),
    ensures
        strictly_ascending(sort_strings(s)),
    decreases s.len(),
{
    if s.len() > 0 {
        let t = s.drop_last();
        assert(no_repeats(t)) by {
            assert forall|i: int, j: int| 0 <= i < j < t.len() implies #[trigger] t[i] != #[trigger] t[j] by {
                assert(s[i] == t[i] && s[j] == t[j]);
            }
        }
        lemma_sort_ascending(t);
        lemma_sort_contains(t, s.last());
        if t.contains(s.last()) {
            let k = choose|k: int| 0 <= k < t.len() && t[k] == s.last();
            assert(s[k] == s[s.len() - 1]);
        }
        lemma_insert_ascending(sort_strings(t), s.last());
    }
}

proof fn lemma_unique_no_repeats(s: Seq<Seq<char>>)
    ensures
        no_repeats(unique_strings(s)),
    decreases s.len(),
{
    if s.len() > 0 {
        let t = s.drop_last();
        lemma_unique_no_repeats(t);
        let d = unique_strings(t);
        if !t.contains(s.last()) {
            lemma_unique_contains(t, s.last());
            let e = d.push(s.last());
            assert forall|i: int, j: int| 0 <= i < j < e.len() implies #[trigger] e[i] != #[trigger] e[j] by {
                if j == d.len() {
                    assert(d.contains(d[i]));
                    if d[i] == s.last() {
                        assert(d.contains(s.last()));
                    }
                }
            }
        }
    }
}

/// The version list that resolution works on is in strictly ascending order
/// and holds exactly the versions it was made from: each once, none added.
pub proof fn lemma_sorted_unique_ascending(s: Seq<Seq<char>>)
    ensures
        strictly_ascending(sorted_unique(s)),
        forall|y: Seq<char>| #[trigger] sorted_unique(s).contains(y) == s.contains(y),
{
    lemma_unique_no_repeats(s);
    lemma_sort_ascending(unique_strings(s));
    assert forall|y: Seq<char>| #[trigger] sorted_unique(s).contains(y) == s.contains(y) by {
        lemma_sort_contains(unique_strings(s), y);
        lemma_unique_contains(s, y);
    }
}

} // verus!
