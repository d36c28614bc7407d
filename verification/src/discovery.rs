//! Maven module tree discovery: from parsed POMs to version property mappings.
//!
//! Each artifact's version, either a `${...}` property reference or a plain
//! inline version, is mapped back to its resolved value from the `<properties>`
//! of the root or child POMs. Root properties take precedence on conflict, and
//! `${project.*}` references are skipped. Properties that no artifact uses are
//! kept as orphans (possible tool versions), and the repositories of all POMs are
//! collected. Reading the POM files is left to the caller, which hands over the
//! parsed root project and the parsed child modules.

use vstd::prelude::*;

use crate::pom::{
    opt_view, strings_view, Artifact, ArtifactKind, ArtifactView, Project, ProjectView, Repository, RepositoryView,
};
use crate::props::{pairs_insert, pairs_map, PropertyMap};
use crate::sorting::{insert_by, insertion_sort, lemma_insertion_sort, lemma_permutation_keeps_distinct_keys, total_preorder};
use crate::text::{is_prefix, spec_trim, starts_with, str_eq, trim};

verus! {

/// A named property with its resolved value (e.g. `version.junit` → `5.10.0`) and
/// the POM it is defined in.
#[derive(Debug)]
pub struct VersionProperty {
    pub name: String,
    pub current_value: String,
    pub source: String,
}

/// The view of a [`VersionProperty`].
pub struct VersionPropertyView {
    pub name: Seq<char>,
    pub current_value: Seq<char>,
    pub source: Seq<char>,
}

impl View for VersionProperty {
    type V = VersionPropertyView;

    open spec fn view(&self) -> VersionPropertyView {
        VersionPropertyView { name: self.name@, current_value: self.current_value@, source: self.source@ }
    }
}

impl VersionProperty {
    /// A copy with the same fields.
    pub fn copy(&self) -> (p: Self)
        ensures
            p@ == self@,
    {
        VersionProperty {
            name: self.name.clone(),
            current_value: self.current_value.clone(),
            source: self.source.clone(),
        }
    }
}

/// A Maven artifact with its version property (or, for an inline version, its
/// coordinates as the property's name) and where that is defined.
#[derive(Debug)]
pub struct ArtifactMapping {
    pub property: VersionProperty,
    pub group_id: String,
    pub artifact_id: String,
    pub kind: ArtifactKind,
    pub has_version_property: bool,
}

/// The view of an [`ArtifactMapping`].
pub struct MappingView {
    pub property: VersionPropertyView,
    pub group_id: Seq<char>,
    pub artifact_id: Seq<char>,
    pub kind: ArtifactKind,
    pub has_version_property: bool,
}

impl View for ArtifactMapping {
    type V = MappingView;

    open spec fn view(&self) -> MappingView {
        MappingView {
            property: self.property@,
            group_id: self.group_id@,
            artifact_id: self.artifact_id@,
            kind: self.kind,
            has_version_property: self.has_version_property,
        }
    }
}

/// The views of a list of mappings.
pub open spec fn mapping_views(v: Seq<ArtifactMapping>) -> Seq<MappingView> {
    v.map_values(|m: ArtifactMapping| m@)
}

/// The views of a list of properties.
pub open spec fn property_views(v: Seq<VersionProperty>) -> Seq<VersionPropertyView> {
    v.map_values(|p: VersionProperty| p@)
}

/// The views of a list of repositories.
pub open spec fn repo_views(v: Seq<Repository>) -> Seq<RepositoryView> {
    v.map_values(|r: Repository| r@)
}

/// What discovery finds: the artifact mappings, the properties that no artifact
/// uses, and the repositories of all POMs.
#[derive(Debug)]
pub struct DiscoveryResult {
    pub mappings: Vec<ArtifactMapping>,
    pub orphan_properties: Vec<VersionProperty>,
    pub repositories: Vec<Repository>,
}

// ---------------------------------------------------------------------------
// Property references
// ---------------------------------------------------------------------------

/// The name in a `${name}` reference, surrounding whitespace allowed; `None`
/// where the value is not such a reference or the name is empty.
pub open spec fn spec_extract_property_reference(version: Seq<char>) -> Option<Seq<char>> {
    let t = spec_trim(version);
    if t.len() > 3 && t[0] == '$' && t[1] == '{' && t.last() == '}' {
        Some(t.subrange(2, t.len() - 1))
    } else {
        None
    }
}

/// Extracts the property name from a `${property.name}` reference.
pub fn extract_property_reference(version: &str) -> (r: Option<String>)
    ensures
        opt_view(r) == spec_extract_property_reference(version@),
{
    let t = trim(version);
    let chars = crate::text::chars_of(t.as_str());
    let n = chars.len();
    if n > 3 && chars[0] == '$' && chars[1] == '{' && chars[n - 1] == '}' {
        Some(crate::text::string_from_range(&chars, 2, n - 1))
    } else {
        None
    }
}

/// How many references [`resolve_value`] follows at most.
pub const MAX_PROPERTY_RESOLUTION_DEPTH: usize = 10;

/// `value` with up to `fuel` chained `${...}` references replaced by the values
/// they name; resolution stops at a value that is no reference or names an
/// unknown property.
pub open spec fn resolve_from(value: Seq<char>, props: Map<Seq<char>, Seq<char>>, fuel: nat) -> Seq<char>
    decreases fuel,
{
    if fuel == 0 {
        value
    } else {
        match spec_extract_property_reference(value) {
            Some(name) => if props.contains_key(name) {
                resolve_from(props[name], props, (fuel - 1) as nat)
            } else {
                value
            },
            None => value,
        }
    }
}

/// `value` with chained `${...}` references resolved, following at most
/// [`MAX_PROPERTY_RESOLUTION_DEPTH`] of them.
pub open spec fn spec_resolve_value(value: Seq<char>, props: Map<Seq<char>, Seq<char>>) -> Seq<char> {
    resolve_from(value, props, MAX_PROPERTY_RESOLUTION_DEPTH as nat)
}

/// Resolves chained `${...}` property references up to a fixed depth.
pub fn resolve_value(value: &str, properties: &PropertyMap) -> (r: String)
    ensures
        r@ == spec_resolve_value(value@, properties@),
{
    let mut current = String::from_str(value);
    let mut fuel: usize = MAX_PROPERTY_RESOLUTION_DEPTH;
    while fuel > 0
        invariant
            resolve_from(current@, properties@, fuel as nat) == spec_resolve_value(value@, properties@),
        decreases fuel,
    {
        match extract_property_reference(current.as_str()) {
            Some(name) => match properties.get(name.as_str()) {
                Some(resolved) => {
                    current = resolved.clone();
                },
                None => {
                    return current;
                },
            },
            None => {
                return current;
            },
        }
        fuel = fuel - 1;
    }
    current
}

// ---------------------------------------------------------------------------
// Implicit project properties
// ---------------------------------------------------------------------------

/// The entries after storing the project's coordinates as `project.groupId`,
/// `project.artifactId`, `project.version` and `project.packaging` (`jar` where
/// the project names no packaging).
pub open spec fn spec_inject(
    p: Seq<(Seq<char>, Seq<char>)>,
    group_id: Option<Seq<char>>,
    artifact_id: Option<Seq<char>>,
    version: Option<Seq<char>>,
    packaging: Option<Seq<char>>,
) -> Seq<(Seq<char>, Seq<char>)> {
    let p1 = match group_id {
        Some(g) => pairs_insert(p, "project.groupId"@, g),
        None => p,
    };
    let p2 = match artifact_id {
        Some(a) => pairs_insert(p1, "project.artifactId"@, a),
        None => p1,
    };
    let p3 = match version {
        Some(v) => pairs_insert(p2, "project.version"@, v),
        None => p2,
    };
    pairs_insert(
        p3,
        "project.packaging"@,
        match packaging {
            Some(k) => k,
            None => "jar"@,
        },
    )
}

/// The first of two optional strings that is present.
pub open spec fn or_else(a: Option<Seq<char>>, b: Option<Seq<char>>) -> Option<Seq<char>> {
    match a {
        Some(x) => Some(x),
        None => b,
    }
}

fn first_present(a: &Option<String>, b: &Option<String>) -> (r: Option<String>)
    ensures
        opt_view(r) == or_else(opt_view(*a), opt_view(*b)),
{
    match a {
        Some(x) => Some(x.clone()),
        None => crate::model::copy_opt_string(b),
    }
}

fn inject_coordinates(
    properties: &mut PropertyMap,
    group_id: Option<String>,
    artifact_id: Option<String>,
    version: Option<String>,
    packaging: Option<String>,
)
    ensures
        final(properties).pairs() == spec_inject(
            old(properties).pairs(),
            opt_view(group_id),
            opt_view(artifact_id),
            opt_view(version),
            opt_view(packaging),
        ),
{
    match group_id {
        Some(g) => properties.insert(String::from_str("project.groupId"), g),
        None => {},
    }
    match artifact_id {
        Some(a) => properties.insert(String::from_str("project.artifactId"), a),
        None => {},
    }
    match version {
        Some(v) => properties.insert(String::from_str("project.version"), v),
        None => {},
    }
    let k = match packaging {
        Some(k) => k,
        None => String::from_str("jar"),
    };
    properties.insert(String::from_str("project.packaging"), k);
}

/// Injects Maven's implicit properties (`project.groupId`, `project.artifactId`,
/// `project.version`, `project.packaging`) so that `${project.*}` references
/// resolve.
pub fn inject_project_properties(project: &Project, properties: &mut PropertyMap)
    ensures
        final(properties).pairs() == spec_inject(
            old(properties).pairs(),
            project@.group_id,
            project@.artifact_id,
            project@.version,
            project@.packaging,
        ),
{
    inject_coordinates(
        properties,
        crate::model::copy_opt_string(&project.group_id),
        crate::model::copy_opt_string(&project.artifact_id),
        crate::model::copy_opt_string(&project.version),
        crate::model::copy_opt_string(&project.packaging),
    );
}

/// Like [`inject_project_properties`], for a child module: the child's own
/// coordinates where present, else the parent's for the inherited group,
/// version and packaging.
pub fn inject_project_properties_with_fallback(child: &Project, parent: &Project, properties: &mut PropertyMap)
    ensures
        final(properties).pairs() == spec_inject(
            old(properties).pairs(),
            or_else(child@.group_id, parent@.group_id),
            child@.artifact_id,
            or_else(child@.version, parent@.version),
            or_else(child@.packaging, parent@.packaging),
        ),
{
    inject_coordinates(
        properties,
        first_present(&child.group_id, &parent.group_id),
        crate::model::copy_opt_string(&child.artifact_id),
        first_present(&child.version, &parent.version),
        first_present(&child.packaging, &parent.packaging),
    );
}

} // verus!

verus! {

// ---------------------------------------------------------------------------
// Artifact mappings
// ---------------------------------------------------------------------------

/// `group:artifact`.
pub open spec fn coordinates(group_id: Seq<char>, artifact_id: Seq<char>) -> Seq<char> {
    group_id + ":"@ + artifact_id
}

/// The mapping of one artifact, if it has one.
///
/// An artifact needs a version, a group and an artifact id. A `${name}` version
/// maps to property `name` where the properties define it (not for
/// `project.*`), with the property's resolved value and defining POM; a plain
/// version maps to a property named by the resolved coordinates, with the
/// trimmed version as its value and `pom_path` as its source.
pub open spec fn mapping_of(
    a: ArtifactView,
    kind: ArtifactKind,
    pom_path: Seq<char>,
    props: Map<Seq<char>, Seq<char>>,
    sources: Map<Seq<char>, Seq<char>>,
) -> Seq<MappingView> {
    match (a.version, a.group_id, a.artifact_id) {
        (Some(v), Some(g), Some(aid)) => {
            let group_id = spec_resolve_value(g, props);
            let artifact_id = spec_resolve_value(aid, props);
            match spec_extract_property_reference(v) {
                Some(name) => if is_prefix("project."@, name) || !props.contains_key(name) {
                    Seq::empty()
                } else {
                    seq![MappingView {
                        property: VersionPropertyView {
                            name,
                            current_value: spec_resolve_value(props[name], props),
                            source: if sources.contains_key(name) { sources[name] } else { pom_path },
                        },
                        group_id,
                        artifact_id,
                        kind,
                        has_version_property: true,
                    }]
                },
                None => seq![MappingView {
                    property: VersionPropertyView {
                        name: coordinates(group_id, artifact_id),
                        current_value: spec_trim(v),
                        source: pom_path,
                    },
                    group_id,
                    artifact_id,
                    kind,
                    has_version_property: false,
                }],
            }
        },
        _ => Seq::empty(),
    }
}

/// The mappings of the artifacts, in order.
pub open spec fn spec_extract_mappings(
    artifacts: Seq<(ArtifactView, ArtifactKind)>,
    pom_path: Seq<char>,
    props: Map<Seq<char>, Seq<char>>,
    sources: Map<Seq<char>, Seq<char>>,
) -> Seq<MappingView>
    decreases artifacts.len(),
{
    if artifacts.len() == 0 {
        Seq::empty()
    } else {
        spec_extract_mappings(artifacts.drop_last(), pom_path, props, sources) + mapping_of(
            artifacts.last().0,
            artifacts.last().1,
            pom_path,
            props,
            sources,
        )
    }
}

pub(crate) fn concat3(a: &str, b: &str, c: &str) -> (s: String)
    ensures
        s@ == a@ + b@ + c@,
{
    let mut s = String::from_str(a);
    s.append(b);
    s.append(c);
    s
}

fn mapping_of_exec(
    a: &Artifact,
    kind: ArtifactKind,
    pom_path: &str,
    properties: &PropertyMap,
    property_sources: &PropertyMap,
) -> (r: Option<ArtifactMapping>)
    ensures
        match r {
            Some(m) => mapping_of(a@, kind, pom_path@, properties@, property_sources@) == seq![m@],
            None => mapping_of(a@, kind, pom_path@, properties@, property_sources@) == Seq::<MappingView>::empty(),
        },
{
    let (version_str, group, art) = match (&a.version, &a.group_id, &a.artifact_id) {
        (Some(v), Some(g), Some(x)) => (v, g, x),
        _ => {
            return None;
        },
    };
    let group_id = resolve_value(group.as_str(), properties);
    let artifact_id = resolve_value(art.as_str(), properties);
    match extract_property_reference(version_str.as_str()) {
        Some(name) => {
            if starts_with(name.as_str(), "project.") {
                return None;
            }
            let raw = match properties.get(name.as_str()) {
                Some(raw) => raw,
                None => {
                    return None;
                },
            };
            let current_value = resolve_value(raw.as_str(), properties);
            let source = match property_sources.get(name.as_str()) {
                Some(s) => s.clone(),
                None => String::from_str(pom_path),
            };
            Some(ArtifactMapping {
                property: VersionProperty { name, current_value, source },
                group_id,
                artifact_id,
                kind,
                has_version_property: true,
            })
        },
        None => {
            let name = concat3(group_id.as_str(), ":", artifact_id.as_str());
            Some(ArtifactMapping {
                property: VersionProperty {
                    name,
                    current_value: trim(version_str.as_str()),
                    source: String::from_str(pom_path),
                },
                group_id,
                artifact_id,
                kind,
                has_version_property: false,
            })
        },
    }
}

/// Appends the mappings of a parsed POM's artifacts to `mappings`.
///
/// `properties` resolves references, and `property_sources` tells which POM
/// defines each property; `pom_path` is the POM the artifacts come from.
pub fn extract_mappings(
    project: &Project,
    pom_path: &str,
    properties: &PropertyMap,
    property_sources: &PropertyMap,
    mappings: &mut Vec<ArtifactMapping>,
)
    ensures
        mapping_views(final(mappings)@) == mapping_views(old(mappings)@) + spec_extract_mappings(
            project@.artifacts,
            pom_path@,
            properties@,
            property_sources@,
        ),
{
    let ghost arts = project@.artifacts;
    let ghost start = mapping_views(mappings@);
    let mut i: usize = 0;
    assert(arts.subrange(0, 0) =~= Seq::<(ArtifactView, ArtifactKind)>::empty());
    assert(start + Seq::<MappingView>::empty() =~= start);
    while i < project.artifacts.len()
        invariant
            arts == project@.artifacts,
            i <= arts.len(),
            mapping_views(mappings@) == start + spec_extract_mappings(
                arts.subrange(0, i as int),
                pom_path@,
                properties@,
                property_sources@,
            ),
        decreases arts.len() - i,
    {
        let ghost before = mapping_views(mappings@);
        let (a, kind) = (&project.artifacts[i].0, project.artifacts[i].1);
        assert(arts[i as int] == (a@, kind));
        assert(arts.subrange(0, i as int + 1).drop_last() =~= arts.subrange(0, i as int));
        match mapping_of_exec(a, kind, pom_path, properties, property_sources) {
            Some(m) => {
                mappings.push(m);
                assert(mapping_views(mappings@) =~= before + seq![m@]);
            },
            None => {
                assert(before + Seq::<MappingView>::empty() =~= before);
            },
        }
        i = i + 1;
        assert(mapping_views(mappings@) =~= start + spec_extract_mappings(
            arts.subrange(0, i as int),
            pom_path@,
            properties@,
            property_sources@,
        ));
    }
    assert(arts.subrange(0, arts.len() as int) =~= arts);
}

} // verus!

verus! {

// ---------------------------------------------------------------------------
// Duplicates and order
// ---------------------------------------------------------------------------

/// The key that identifies a mapping: `groupId:artifactId`.
pub open spec fn mapping_key(m: MappingView) -> Seq<char> {
    coordinates(m.group_id, m.artifact_id)
}

/// Some mapping of `s` has key `k`.
pub open spec fn has_mapping_key(s: Seq<MappingView>, k: Seq<char>) -> bool {
    exists|j: int| 0 <= j < s.len() && mapping_key(#[trigger] s[j]) == k
}

/// The mappings with the later duplicates of each key removed.
pub open spec fn spec_deduplicate(s: Seq<MappingView>) -> Seq<MappingView>
    decreases s.len(),
{
    if s.len() == 0 {
        s
    } else {
        let d = spec_deduplicate(s.drop_last());
        if has_mapping_key(s.drop_last(), mapping_key(s.last())) {
            d
        } else {
            d.push(s.last())
        }
    }
}

proof fn lemma_dedup_keys(s: Seq<MappingView>, k: Seq<char>)
    ensures
        has_mapping_key(spec_deduplicate(s), k) == has_mapping_key(s, k),
    decreases s.len(),
{
    if s.len() > 0 {
        let t = s.drop_last();
        lemma_dedup_keys(t, k);
        let d = spec_deduplicate(t);
        if has_mapping_key(s, k) {
            let j = choose|j: int| 0 <= j < s.len() && mapping_key(#[trigger] s[j]) == k;
            if j < t.len() {
                assert(t[j] == s[j]);
            }
            if !has_mapping_key(t, mapping_key(s.last())) {
                assert(d.push(s.last())[d.len() as int] == s.last());
            }
        }
        if has_mapping_key(t, k) {
            let j = choose|j: int| 0 <= j < t.len() && mapping_key(#[trigger] t[j]) == k;
            assert(s[j] == t[j]);
        }
        if !has_mapping_key(t, mapping_key(s.last())) {
            let e = d.push(s.last());
            if has_mapping_key(e, k) {
                let j = choose|j: int| 0 <= j < e.len() && mapping_key(#[trigger] e[j]) == k;
                if j < d.len() {
                    assert(e[j] == d[j]);
                } else {
                    assert(s[s.len() - 1] == s.last());
                }
            }
            if has_mapping_key(d, k) {
                let j = choose|j: int| 0 <= j < d.len() && mapping_key(#[trigger] d[j]) == k;
                assert(e[j] == d[j]);
            }
        }
    }
}

/// Removes duplicate mappings by `groupId:artifactId`, keeping the first.
pub fn deduplicate(mappings: &mut Vec<ArtifactMapping>)
    ensures
        mapping_views(final(mappings)@) == spec_deduplicate(mapping_views(old(mappings)@)),
{
    let ghost input = mapping_views(mappings@);
    let mut rest: Vec<ArtifactMapping> = Vec::new();
    std::mem::swap(&mut rest, mappings);
    let ghost orig = rest@;
    // Reverse so that popping yields the mappings in order.
    let mut rev: Vec<ArtifactMapping> = Vec::new();
    while rest.len() > 0
        invariant
            mapping_views(rest@) + mapping_views(rev@).reverse() == input,
        decreases rest@.len(),
    {
        let ghost br = rest@;
        let ghost bv = rev@;
        let x = rest.pop().unwrap();
        rev.push(x);
        proof {
            assert(mapping_views(rest@) =~= mapping_views(br).drop_last());
            assert(mapping_views(rev@).reverse() =~= seq![x@] + mapping_views(bv).reverse());
            assert(mapping_views(rest@) + mapping_views(rev@).reverse() =~= mapping_views(br) + mapping_views(bv).reverse());
        }
    }
    assert(mapping_views(rev@).reverse() =~= input);
    let mut keys: Vec<String> = Vec::new();
    let mut out: Vec<ArtifactMapping> = Vec::new();
    let ghost mut done: int = 0;
    assert(mapping_views(out@) =~= spec_deduplicate(input.subrange(0, 0)));
    while rev.len() > 0
        invariant
            0 <= done <= input.len(),
            mapping_views(rev@).reverse() == input.subrange(done, input.len() as int),
            mapping_views(out@) == spec_deduplicate(input.subrange(0, done)),
            keys@.len() == out@.len(),
            forall|j: int| 0 <= j < keys@.len() ==> (#[trigger] keys@[j])@ == mapping_key(mapping_views(out@)[j]),
        decreases rev@.len(),
    {
        let ghost bv = rev@;
        let x = rev.pop().unwrap();
        proof {
            assert(bv[bv.len() - 1] == x);
            assert(mapping_views(bv).reverse().len() == bv.len());
            assert(mapping_views(bv).reverse()[0] == x@);
            assert(input.subrange(done, input.len() as int)[0] == input[done]);
            assert(mapping_views(rev@).reverse() =~= mapping_views(bv).reverse().drop_first());
            assert(input.subrange(done, input.len() as int).drop_first() =~= input.subrange(done + 1, input.len() as int));
        }
        let key = concat3(x.group_id.as_str(), ":", x.artifact_id.as_str());
        let ghost o = mapping_views(out@);
        let ghost prefix = input.subrange(0, done);
        proof {
            lemma_dedup_keys(prefix, key@);
            assert(input.subrange(0, done + 1).drop_last() =~= prefix);
            assert(input.subrange(0, done + 1).last() == x@);
        }
        let mut seen = false;
        let mut j: usize = 0;
        while j < keys.len()
            invariant
                j <= keys@.len(),
                keys@.len() == o.len(),
                forall|m: int| 0 <= m < keys@.len() ==> (#[trigger] keys@[m])@ == mapping_key(o[m]),
                seen == exists|m: int| 0 <= m < j && mapping_key(#[trigger] o[m]) == key@,
            decreases keys@.len() - j,
        {
            if str_eq(keys[j].as_str(), key.as_str()) {
                seen = true;
            }
            j = j + 1;
        }
        assert(seen == has_mapping_key(o, key@));
        if !seen {
            keys.push(key);
            out.push(x);
            proof {
                assert(mapping_views(out@) =~= o.push(x@));
                assert forall|m: int| 0 <= m < keys@.len() implies (#[trigger] keys@[m])@ == mapping_key(mapping_views(out@)[m]) by {
                    if m < o.len() {
                        assert(mapping_views(out@)[m] == o[m]);
                    }
                }
            }
        }
        proof {
            done = done + 1;
        }
    }
    assert(input.subrange(0, input.len() as int) =~= input);
    *mappings = out;
}

/// `s` without its trailing `/` characters.
pub open spec fn trim_trailing_slashes(s: Seq<char>) -> Seq<char>
    decreases s.len(),
{
    if s.len() > 0 && s.last() == '/' {
        trim_trailing_slashes(s.drop_last())
    } else {
        s
    }
}

/// The key that identifies a repository: its URL without trailing slashes.
pub open spec fn repo_key(r: RepositoryView) -> Seq<char> {
    trim_trailing_slashes(r.url)
}

/// Some repository of `s` has key `k`.
pub open spec fn has_repo_key(s: Seq<RepositoryView>, k: Seq<char>) -> bool {
    exists|j: int| 0 <= j < s.len() && repo_key(#[trigger] s[j]) == k
}

/// The repositories with the later duplicates of each normalized URL removed.
pub open spec fn spec_deduplicate_repos(s: Seq<RepositoryView>) -> Seq<RepositoryView>
    decreases s.len(),
{
    if s.len() == 0 {
        s
    } else {
        let d = spec_deduplicate_repos(s.drop_last());
        if has_repo_key(s.drop_last(), repo_key(s.last())) {
            d
        } else {
            d.push(s.last())
        }
    }
}

proof fn lemma_dedup_repo_keys(s: Seq<RepositoryView>, k: Seq<char>)
    ensures
        has_repo_key(spec_deduplicate_repos(s), k) == has_repo_key(s, k),
    decreases s.len(),
{
    if s.len() > 0 {
        let t = s.drop_last();
        lemma_dedup_repo_keys(t, k);
        let d = spec_deduplicate_repos(t);
        if has_repo_key(s, k) {
            let j = choose|j: int| 0 <= j < s.len() && repo_key(#[trigger] s[j]) == k;
            if j < t.len() {
                assert(t[j] == s[j]);
            }
            if !has_repo_key(t, repo_key(s.last())) {
                assert(d.push(s.last())[d.len() as int] == s.last());
            }
        }
        if has_repo_key(t, k) {
            let j = choose|j: int| 0 <= j < t.len() && repo_key(#[trigger] t[j]) == k;
            assert(s[j] == t[j]);
        }
        if !has_repo_key(t, repo_key(s.last())) {
            let e = d.push(s.last());
            if has_repo_key(e, k) {
                let j = choose|j: int| 0 <= j < e.len() && repo_key(#[trigger] e[j]) == k;
                if j < d.len() {
                    assert(e[j] == d[j]);
                } else {
                    assert(s[s.len() - 1] == s.last());
                }
            }
            if has_repo_key(d, k) {
                let j = choose|j: int| 0 <= j < d.len() && repo_key(#[trigger] d[j]) == k;
                assert(e[j] == d[j]);
            }
        }
    }
}

pub(crate) fn url_key(url: &str) -> (k: String)
    ensures
        k@ == trim_trailing_slashes(url@),
{
    let chars = crate::text::chars_of(url);
    let mut n: usize = chars.len();
    assert(chars@.subrange(0, chars@.len() as int) =~= chars@);
    while n > 0 && chars[n - 1] == '/'
        invariant
            n <= chars@.len(),
            trim_trailing_slashes(url@) == trim_trailing_slashes(chars@.subrange(0, n as int)),
        decreases n,
    {
        assert(chars@.subrange(0, n as int).drop_last() =~= chars@.subrange(0, n - 1));
        n = n - 1;
    }
    proof {
        assert(chars@.subrange(0, chars@.len() as int) =~= chars@);
    }
    crate::text::string_from_range(&chars, 0, n)
}

/// Removes duplicate repositories by URL with trailing slashes stripped,
/// keeping the first.
pub fn deduplicate_repos(repos: &mut Vec<Repository>)
    ensures
        repo_views(final(repos)@) == spec_deduplicate_repos(repo_views(old(repos)@)),
{
    let ghost input = repo_views(repos@);
    let mut rest: Vec<Repository> = Vec::new();
    std::mem::swap(&mut rest, repos);
    let mut rev: Vec<Repository> = Vec::new();
    while rest.len() > 0
        invariant
            repo_views(rest@) + repo_views(rev@).reverse() == input,
        decreases rest@.len(),
    {
        let ghost br = rest@;
        let ghost bv = rev@;
        let x = rest.pop().unwrap();
        rev.push(x);
        proof {
            assert(repo_views(rest@) =~= repo_views(br).drop_last());
            assert(repo_views(rev@).reverse() =~= seq![x@] + repo_views(bv).reverse());
            assert(repo_views(rest@) + repo_views(rev@).reverse() =~= repo_views(br) + repo_views(bv).reverse());
        }
    }
    assert(repo_views(rev@).reverse() =~= input);
    let mut keys: Vec<String> = Vec::new();
    let mut out: Vec<Repository> = Vec::new();
    let ghost mut done: int = 0;
    assert(repo_views(out@) =~= spec_deduplicate_repos(input.subrange(0, 0)));
    while rev.len() > 0
        invariant
            0 <= done <= input.len(),
            repo_views(rev@).reverse() == input.subrange(done, input.len() as int),
            repo_views(out@) == spec_deduplicate_repos(input.subrange(0, done)),
            keys@.len() == out@.len(),
            forall|j: int| 0 <= j < keys@.len() ==> (#[trigger] keys@[j])@ == repo_key(repo_views(out@)[j]),
        decreases rev@.len(),
    {
        let ghost bv = rev@;
        let x = rev.pop().unwrap();
        proof {
            assert(bv[bv.len() - 1] == x);
            assert(repo_views(bv).reverse().len() == bv.len());
            assert(repo_views(bv).reverse()[0] == x@);
            assert(input.subrange(done, input.len() as int)[0] == input[done]);
            assert(repo_views(rev@).reverse() =~= repo_views(bv).reverse().drop_first());
            assert(input.subrange(done, input.len() as int).drop_first() =~= input.subrange(done + 1, input.len() as int));
        }
        let key = url_key(x.url.as_str());
        let ghost o = repo_views(out@);
        let ghost prefix = input.subrange(0, done);
        proof {
            lemma_dedup_repo_keys(prefix, key@);
            assert(input.subrange(0, done + 1).drop_last() =~= prefix);
            assert(input.subrange(0, done + 1).last() == x@);
        }
        let mut seen = false;
        let mut j: usize = 0;
        while j < keys.len()
            invariant
                j <= keys@.len(),
                keys@.len() == o.len(),
                forall|m: int| 0 <= m < keys@.len() ==> (#[trigger] keys@[m])@ == repo_key(o[m]),
                seen == exists|m: int| 0 <= m < j && repo_key(#[trigger] o[m]) == key@,
            decreases keys@.len() - j,
        {
            if str_eq(keys[j].as_str(), key.as_str()) {
                seen = true;
            }
            j = j + 1;
        }
        assert(seen == has_repo_key(o, key@));
        if !seen {
            keys.push(key);
            out.push(x);
            proof {
                assert(repo_views(out@) =~= o.push(x@));
                assert forall|m: int| 0 <= m < keys@.len() implies (#[trigger] keys@[m])@ == repo_key(repo_views(out@)[m]) by {
                    if m < o.len() {
                        assert(repo_views(out@)[m] == o[m]);
                    }
                }
            }
        }
        proof {
            done = done + 1;
        }
    }
    assert(input.subrange(0, input.len() as int) =~= input);
    *repos = out;
}

} // verus!

verus! {

/// `a` comes before or equals `b` in lexicographic order of code points (the
/// order of `str`'s `Ord`, which compares UTF-8 bytes).
pub open spec fn seq_le(a: Seq<char>, b: Seq<char>) -> bool
    decreases a.len(),
{
    if a.len() == 0 {
        true
    } else if b.len() == 0 {
        false
    } else if (a[0] as u32) < (b[0] as u32) {
        true
    } else if (a[0] as u32) > (b[0] as u32) {
        false
    } else {
        seq_le(a.drop_first(), b.drop_first())
    }
}

pub(crate) fn str_le_exec(a: &str, b: &str) -> (r: bool)
    ensures
        r == seq_le(a@, b@),
{
    let x = crate::text::chars_of(a);
    let y = crate::text::chars_of(b);
    let mut i: usize = 0;
    assert(x@.skip(0) =~= x@);
    assert(y@.skip(0) =~= y@);
    while i < x.len() && i < y.len()
        invariant
            x@ == a@,
            y@ == b@,
            i <= x@.len(),
            i <= y@.len(),
            seq_le(a@, b@) == seq_le(x@.skip(i as int), y@.skip(i as int)),
        decreases x@.len() - i,
    {
        assert(x@.skip(i as int)[0] == x@[i as int]);
        assert(y@.skip(i as int)[0] == y@[i as int]);
        if (x[i] as u32) < (y[i] as u32) {
            return true;
        }
        if (x[i] as u32) > (y[i] as u32) {
            return false;
        }
        assert(x@.skip(i as int).drop_first() =~= x@.skip(i as int + 1));
        assert(y@.skip(i as int).drop_first() =~= y@.skip(i as int + 1));
        i = i + 1;
    }
    i == x.len()
}

/// The position of an artifact kind in the order of mappings: dependencies first.
pub open spec fn kind_rank(k: ArtifactKind) -> nat {
    match k {
        ArtifactKind::Dependency => 0,
        ArtifactKind::Plugin => 1,
    }
}

/// `a` sorts before or together with `b`: by kind, then by property name.
pub open spec fn mapping_le(a: MappingView, b: MappingView) -> bool {
    kind_rank(a.kind) < kind_rank(b.kind) || (kind_rank(a.kind) == kind_rank(b.kind) && seq_le(
        a.property.name,
        b.property.name,
    ))
}

fn mapping_le_exec(a: &ArtifactMapping, b: &ArtifactMapping) -> (r: bool)
    ensures
        r == mapping_le(a@, b@),
{
    let ra: u8 = match a.kind {
        ArtifactKind::Dependency => 0,
        ArtifactKind::Plugin => 1,
    };
    let rb: u8 = match b.kind {
        ArtifactKind::Dependency => 0,
        ArtifactKind::Plugin => 1,
    };
    ra < rb || (ra == rb && str_le_exec(a.property.name.as_str(), b.property.name.as_str()))
}

/// `s` with `m` placed after the last element that sorts before or with it.
pub open spec fn insert_mapping(s: Seq<MappingView>, m: MappingView) -> Seq<MappingView>
    decreases s.len(),
{
    if s.len() == 0 {
        seq![m]
    } else if mapping_le(s.last(), m) {
        s.push(m)
    } else {
        insert_mapping(s.drop_last(), m).push(s.last())
    }
}

/// The mappings sorted by kind and property name; mappings that compare equal
/// keep their order (a stable sort).
pub open spec fn sort_mappings(s: Seq<MappingView>) -> Seq<MappingView>
    decreases s.len(),
{
    if s.len() == 0 {
        s
    } else {
        insert_mapping(sort_mappings(s.drop_last()), s.last())
    }
}

proof fn lemma_insert_mapping(s: Seq<MappingView>, m: MappingView, j: int)
    requires
        0 <= j <= s.len(),
        forall|k: int| j <= k < s.len() ==> !mapping_le(#[trigger] s[k], m),
        j == 0 || mapping_le(s[j - 1], m),
    ensures
        insert_mapping(s, m) == s.insert(j, m),
    decreases s.len(),
{
    if s.len() == 0 {
        assert(s.insert(j, m) =~= seq![m]);
    } else if j == s.len() {
        assert(s.insert(j, m) =~= s.push(m));
    } else {
        let t = s.drop_last();
        lemma_insert_mapping(t, m, j);
        assert(s.insert(j, m) =~= t.insert(j, m).push(s.last()));
    }
}

/// Sorts mappings by kind, then property name, keeping the order of equals.
pub fn sort_mappings_exec(v: Vec<ArtifactMapping>) -> (out: Vec<ArtifactMapping>)
    ensures
        mapping_views(out@) == sort_mappings(mapping_views(v@)),
{
    let ghost input = mapping_views(v@);
    let mut rev = crate::text::reverse_vec(v);
    assert(mapping_views(rev@).reverse() =~= input);
    let mut out: Vec<ArtifactMapping> = Vec::new();
    let ghost mut done: int = 0;
    assert(mapping_views(out@) =~= sort_mappings(input.subrange(0, 0)));
    while rev.len() > 0
        invariant
            0 <= done <= input.len(),
            mapping_views(rev@).reverse() == input.subrange(done, input.len() as int),
            mapping_views(out@) == sort_mappings(input.subrange(0, done)),
        decreases rev@.len(),
    {
        let ghost bv = rev@;
        let x = rev.pop().unwrap();
        proof {
            assert(bv[bv.len() - 1] == x);
            assert(mapping_views(bv).reverse().len() == bv.len());
            assert(mapping_views(bv).reverse()[0] == x@);
            assert(input.subrange(done, input.len() as int)[0] == input[done]);
            assert(mapping_views(rev@).reverse() =~= mapping_views(bv).reverse().drop_first());
            assert(input.subrange(done, input.len() as int).drop_first() =~= input.subrange(done + 1, input.len() as int));
        }
        let ghost o = mapping_views(out@);
        let mut j: usize = out.len();
        while j > 0 && !mapping_le_exec(&out[j - 1], &x)
            invariant
                j <= out@.len(),
                o == mapping_views(out@),
                forall|k: int| j <= k < o.len() ==> !mapping_le(#[trigger] o[k], x@),
            decreases j,
        {
            j = j - 1;
        }
        proof {
            lemma_insert_mapping(o, x@, j as int);
            assert(input.subrange(0, done + 1).drop_last() =~= input.subrange(0, done));
        }
        out.insert(j, x);
        assert(mapping_views(out@) =~= o.insert(j as int, x@));
        proof {
            done = done + 1;
        }
    }
    assert(input.subrange(0, input.len() as int) =~= input);
    out
}

} // verus!

verus! {

// ---------------------------------------------------------------------------
// Orphans and the whole discovery
// ---------------------------------------------------------------------------

/// Some mapping uses property `name`.
pub open spec fn uses_property(mappings: Seq<MappingView>, name: Seq<char>) -> bool {
    exists|j: int| 0 <= j < mappings.len() && (#[trigger] mappings[j]).property.name == name
}

/// The properties that no mapping uses, outside `project.*`, in the order of
/// the entries, each with its resolved value and its defining POM (`pom.xml`
/// where none is recorded).
pub open spec fn spec_orphans(
    entries: Seq<(Seq<char>, Seq<char>)>,
    mappings: Seq<MappingView>,
    props: Map<Seq<char>, Seq<char>>,
    sources: Map<Seq<char>, Seq<char>>,
) -> Seq<VersionPropertyView>
    decreases entries.len(),
{
    if entries.len() == 0 {
        Seq::empty()
    } else {
        let rest = spec_orphans(entries.drop_last(), mappings, props, sources);
        let (name, value) = entries.last();
        if uses_property(mappings, name) || is_prefix("project."@, name) {
            rest
        } else {
            rest.push(VersionPropertyView {
                name,
                current_value: spec_resolve_value(value, props),
                source: if sources.contains_key(name) { sources[name] } else { "pom.xml"@ },
            })
        }
    }
}

fn uses_property_exec(mappings: &Vec<ArtifactMapping>, name: &str) -> (b: bool)
    ensures
        b == uses_property(mapping_views(mappings@), name@),
{
    let mut i: usize = 0;
    while i < mappings.len()
        invariant
            i <= mappings@.len(),
            forall|j: int| 0 <= j < i ==> (#[trigger] mapping_views(mappings@)[j]).property.name != name@,
        decreases mappings@.len() - i,
    {
        if str_eq(mappings[i].property.name.as_str(), name) {
            assert(mapping_views(mappings@)[i as int].property.name == name@);
            return true;
        }
        i = i + 1;
    }
    false
}

fn orphans_exec(properties: &PropertyMap, mappings: &Vec<ArtifactMapping>, sources: &PropertyMap) -> (r: Vec<
    VersionProperty,
>)
    ensures
        property_views(r@) == spec_orphans(properties.pairs(), mapping_views(mappings@), properties@, sources@),
{
    let n = properties.len();
    let ghost entries = properties.pairs();
    let mut out: Vec<VersionProperty> = Vec::new();
    let mut i: usize = 0;
    assert(property_views(out@) =~= spec_orphans(entries.subrange(0, 0), mapping_views(mappings@), properties@, sources@));
    while i < n
        invariant
            n == entries.len(),
            entries == properties.pairs(),
            i <= n,
            property_views(out@) == spec_orphans(entries.subrange(0, i as int), mapping_views(mappings@), properties@, sources@),
        decreases n - i,
    {
        let name = properties.key_at(i);
        let value = properties.value_at(i);
        let ghost before = property_views(out@);
        assert(entries.subrange(0, i as int + 1).drop_last() =~= entries.subrange(0, i as int));
        assert(entries.subrange(0, i as int + 1).last() == entries[i as int]);
        if !uses_property_exec(mappings, name.as_str()) && !starts_with(name.as_str(), "project.") {
            proof {
                reveal_strlit("pom.xml");
            }
            let source = match sources.get(name.as_str()) {
                Some(s) => s.clone(),
                None => String::from_str("pom.xml"),
            };
            let p = VersionProperty {
                name: name.clone(),
                current_value: resolve_value(value.as_str(), properties),
                source,
            };
            out.push(p);
            assert(property_views(out@) =~= before.push(p@));
        }
        i = i + 1;
    }
    assert(entries.subrange(0, n as int) =~= entries);
    out
}

/// What discovery tracks while it walks the POMs: the merged properties, the POM
/// that defines each, the mappings and the repositories found so far.
pub struct DiscoveryState {
    pub properties: Seq<(Seq<char>, Seq<char>)>,
    pub sources: Seq<(Seq<char>, Seq<char>)>,
    pub mappings: Seq<MappingView>,
    pub repositories: Seq<RepositoryView>,
}

/// Each entry's key with `path` as its value, in order.
pub open spec fn sources_for(entries: Seq<(Seq<char>, Seq<char>)>, path: Seq<char>) -> Seq<(Seq<char>, Seq<char>)>
    decreases entries.len(),
{
    if entries.len() == 0 {
        Seq::empty()
    } else {
        pairs_insert(sources_for(entries.drop_last(), path), entries.last().0, path)
    }
}

/// The state after the root POM at `path`: its properties with its implicit
/// project properties, all defined there, and its mappings and repositories.
pub open spec fn root_state(path: Seq<char>, root: ProjectView) -> DiscoveryState {
    let props = spec_inject(root.properties, root.group_id, root.artifact_id, root.version, root.packaging);
    let sources = sources_for(props, path);
    DiscoveryState {
        properties: props,
        sources,
        mappings: spec_extract_mappings(root.artifacts, path, pairs_map(props), pairs_map(sources)),
        repositories: root.repositories,
    }
}

/// The merged properties and sources after taking in the child entries that
/// the merged properties do not define yet (the root wins on conflict).
pub open spec fn merge_child_properties(
    props: Seq<(Seq<char>, Seq<char>)>,
    sources: Seq<(Seq<char>, Seq<char>)>,
    child: Seq<(Seq<char>, Seq<char>)>,
    path: Seq<char>,
) -> (Seq<(Seq<char>, Seq<char>)>, Seq<(Seq<char>, Seq<char>)>)
    decreases child.len(),
{
    if child.len() == 0 {
        (props, sources)
    } else {
        let (p, s) = merge_child_properties(props, sources, child.drop_last(), path);
        let (name, value) = child.last();
        if crate::props::has_key(p, name) {
            (p, s)
        } else {
            (pairs_insert(p, name, value), pairs_insert(s, name, path))
        }
    }
}

/// The state after a child POM at `path`: its new properties are merged in, and
/// its mappings are found with the merged properties plus its own implicit
/// project properties (falling back to the root's coordinates).
pub open spec fn child_state(st: DiscoveryState, path: Seq<char>, child: ProjectView, root: ProjectView) -> DiscoveryState {
    let (props, sources) = merge_child_properties(st.properties, st.sources, child.properties, path);
    let child_props = spec_inject(
        props,
        or_else(child.group_id, root.group_id),
        child.artifact_id,
        or_else(child.version, root.version),
        or_else(child.packaging, root.packaging),
    );
    DiscoveryState {
        properties: props,
        sources,
        mappings: st.mappings + spec_extract_mappings(child.artifacts, path, pairs_map(child_props), pairs_map(sources)),
        repositories: st.repositories + child.repositories,
    }
}

/// The state after the root and the given child POMs, in order.
pub open spec fn walk_children(
    root_path: Seq<char>,
    root: ProjectView,
    children: Seq<(Seq<char>, ProjectView)>,
) -> DiscoveryState
    decreases children.len(),
{
    if children.len() == 0 {
        root_state(root_path, root)
    } else {
        child_state(
            walk_children(root_path, root, children.drop_last()),
            children.last().0,
            children.last().1,
            root,
        )
    }
}

/// The view of a [`DiscoveryResult`].
pub struct DiscoveryView {
    pub mappings: Seq<MappingView>,
    pub orphan_properties: Seq<VersionPropertyView>,
    pub repositories: Seq<RepositoryView>,
}

impl View for DiscoveryResult {
    type V = DiscoveryView;

    open spec fn view(&self) -> DiscoveryView {
        DiscoveryView {
            mappings: mapping_views(self.mappings@),
            orphan_properties: property_views(self.orphan_properties@),
            repositories: repo_views(self.repositories@),
        }
    }
}

/// What discovery finds in a root POM and its child modules: the mappings
/// without duplicate coordinates, sorted by kind and property name; the
/// properties no mapping uses; the repositories without duplicate URLs.
pub open spec fn spec_discover(
    root_path: Seq<char>,
    root: ProjectView,
    children: Seq<(Seq<char>, ProjectView)>,
) -> DiscoveryView {
    let st = walk_children(root_path, root, children);
    let mappings = sort_mappings(spec_deduplicate(st.mappings));
    DiscoveryView {
        mappings,
        orphan_properties: spec_orphans(st.properties, mappings, pairs_map(st.properties), pairs_map(st.sources)),
        repositories: spec_deduplicate_repos(st.repositories),
    }
}

/// The views of a list of child POMs with their paths.
pub open spec fn children_views(v: Seq<(String, Project)>) -> Seq<(Seq<char>, ProjectView)> {
    v.map_values(|c: (String, Project)| (c.0@, c.1@))
}

fn append_repos(out: &mut Vec<Repository>, repos: &Vec<Repository>)
    ensures
        repo_views(final(out)@) == repo_views(old(out)@) + repo_views(repos@),
{
    let ghost start = repo_views(out@);
    let mut i: usize = 0;
    while i < repos.len()
        invariant
            i <= repos@.len(),
            repo_views(out@) == start + repo_views(repos@).subrange(0, i as int),
        decreases repos@.len() - i,
    {
        let ghost before = out@;
        let c = repos[i].copy();
        out.push(c);
        assert(repo_views(out@) =~= repo_views(before).push(c@));
        assert(repo_views(repos@).subrange(0, i as int + 1) =~= repo_views(repos@).subrange(0, i as int).push(repo_views(repos@)[i as int]));
        i = i + 1;
        assert(repo_views(out@) =~= start + repo_views(repos@).subrange(0, i as int));
    }
    assert(repo_views(repos@).subrange(0, repos@.len() as int) =~= repo_views(repos@));
}

fn record_sources(sources: &mut PropertyMap, properties: &PropertyMap, path: &str)
    requires
        old(sources).pairs() == Seq::<(Seq<char>, Seq<char>)>::empty(),
    ensures
        final(sources).pairs() == sources_for(properties.pairs(), path@),
{
    let n = properties.len();
    let ghost entries = properties.pairs();
    let mut i: usize = 0;
    assert(entries.subrange(0, 0) =~= Seq::<(Seq<char>, Seq<char>)>::empty());
    while i < n
        invariant
            n == entries.len(),
            entries == properties.pairs(),
            i <= n,
            sources.pairs() == sources_for(entries.subrange(0, i as int), path@),
        decreases n - i,
    {
        assert(entries.subrange(0, i as int + 1).drop_last() =~= entries.subrange(0, i as int));
        sources.insert(properties.key_at(i).clone(), String::from_str(path));
        i = i + 1;
    }
    assert(entries.subrange(0, n as int) =~= entries);
}

fn merge_child(properties: &mut PropertyMap, sources: &mut PropertyMap, child: &PropertyMap, path: &str)
    ensures
        (final(properties).pairs(), final(sources).pairs()) == merge_child_properties(
            old(properties).pairs(),
            old(sources).pairs(),
            child.pairs(),
            path@,
        ),
{
    let ghost p0 = properties.pairs();
    let ghost s0 = sources.pairs();
    let n = child.len();
    let ghost entries = child.pairs();
    let mut i: usize = 0;
    assert(entries.subrange(0, 0) =~= Seq::<(Seq<char>, Seq<char>)>::empty());
    while i < n
        invariant
            n == entries.len(),
            entries == child.pairs(),
            i <= n,
            (properties.pairs(), sources.pairs()) == merge_child_properties(p0, s0, entries.subrange(0, i as int), path@),
        decreases n - i,
    {
        assert(entries.subrange(0, i as int + 1).drop_last() =~= entries.subrange(0, i as int));
        assert(entries.subrange(0, i as int + 1).last() == entries[i as int]);
        let name = child.key_at(i);
        if properties.position(name.as_str()).is_none() {
            properties.insert(name.clone(), child.value_at(i).clone());
            sources.insert(name.clone(), String::from_str(path));
        }
        i = i + 1;
    }
    assert(entries.subrange(0, n as int) =~= entries);
}

/// Discovers the artifact mappings, orphan properties and repositories of a
/// Maven project from its parsed root POM (read from `root_pom_path`) and its
/// parsed child modules with their paths, in the order the module tree lists
/// them.
pub fn discover(root_pom_path: &str, root: &Project, children: &Vec<(String, Project)>) -> (r: DiscoveryResult)
    ensures
        r@ == spec_discover(root_pom_path@, root@, children_views(children@)),
{
    let ghost cv = children_views(children@);
    let mut properties = root.properties.copy();
    inject_project_properties(root, &mut properties);
    let mut sources = PropertyMap::new();
    record_sources(&mut sources, &properties, root_pom_path);
    let mut mappings: Vec<ArtifactMapping> = Vec::new();
    extract_mappings(root, root_pom_path, &properties, &sources, &mut mappings);
    let mut repositories: Vec<Repository> = Vec::new();
    append_repos(&mut repositories, &root.repositories);
    proof {
        assert(mapping_views(Seq::<ArtifactMapping>::empty()) =~= Seq::<MappingView>::empty());
        assert(Seq::<MappingView>::empty() + spec_extract_mappings(root@.artifacts, root_pom_path@, properties@, sources@) =~= spec_extract_mappings(root@.artifacts, root_pom_path@, properties@, sources@));
        assert(repo_views(Seq::<Repository>::empty()) + root@.repositories =~= root@.repositories);
        assert(cv.subrange(0, 0) =~= Seq::<(Seq<char>, ProjectView)>::empty());
    }
    let mut i: usize = 0;
    while i < children.len()
        invariant
            cv == children_views(children@),
            i <= children@.len(),
            ({
                let st = walk_children(root_pom_path@, root@, cv.subrange(0, i as int));
                &&& properties.pairs() == st.properties
                &&& sources.pairs() == st.sources
                &&& mapping_views(mappings@) == st.mappings
                &&& repo_views(repositories@) == st.repositories
            }),
        decreases children@.len() - i,
    {
        let pom_path = &children[i].0;
        let project = &children[i].1;
        assert(cv[i as int] == (pom_path@, project@));
        assert(cv.subrange(0, i as int + 1).drop_last() =~= cv.subrange(0, i as int));
        assert(cv.subrange(0, i as int + 1).last() == cv[i as int]);
        merge_child(&mut properties, &mut sources, &project.properties, pom_path.as_str());
        let mut child_properties = properties.copy();
        inject_project_properties_with_fallback(project, root, &mut child_properties);
        extract_mappings(project, pom_path.as_str(), &child_properties, &sources, &mut mappings);
        append_repos(&mut repositories, &project.repositories);
        i = i + 1;
    }
    assert(cv.subrange(0, cv.len() as int) =~= cv);
    deduplicate(&mut mappings);
    let mappings = sort_mappings_exec(mappings);
    deduplicate_repos(&mut repositories);
    let orphan_properties = orphans_exec(&properties, &mappings, &sources);
    DiscoveryResult { mappings, orphan_properties, repositories }
}

} // verus!

verus! {

/// `seq_le` relates any two sequences one way or the other, and holds both
/// ways only of equal sequences.
pub proof fn lemma_seq_le_total(a: Seq<char>)
    ensures
        seq_le(a, a),
        forall|b: Seq<char>| seq_le(a, b) || seq_le(b, a),
        forall|b: Seq<char>| seq_le(a, b) && seq_le(b, a) ==> a == b,
    decreases a.len(),
{
    if a.len() > 0 {
        lemma_seq_le_total(a.drop_first());
        assert forall|b: Seq<char>| seq_le(a, b) || seq_le(b, a) by {
            if b.len() > 0 && a[0] == b[0] {
                assert(seq_le(a.drop_first(), b.drop_first()) || seq_le(b.drop_first(), a.drop_first()));
            }
        }
        assert forall|b: Seq<char>| seq_le(a, b) && seq_le(b, a) implies a == b by {
            if b.len() > 0 && (a[0] as u32) == (b[0] as u32) {
                assert(seq_le(a.drop_first(), b.drop_first()) && seq_le(b.drop_first(), a.drop_first()));
                assert(a.drop_first() == b.drop_first());
                vstd::utf8::char_u32_cast(a[0], a[0] as u32);
                vstd::utf8::char_u32_cast(b[0], b[0] as u32);
                assert(a[0] == b[0]);
                assert(a =~= seq![a[0]] + a.drop_first());
                assert(b =~= seq![b[0]] + b.drop_first());
            }
        }
    } else {
        assert forall|b: Seq<char>| seq_le(a, b) && seq_le(b, a) implies a == b by {
            assert(b.len() == 0);
            assert(a =~= b);
        }
    }
}

/// `seq_le` is transitive.
pub proof fn lemma_seq_le_trans(a: Seq<char>, b: Seq<char>, c: Seq<char>)
    requires
        seq_le(a, b),
        seq_le(b, c),
    ensures
        seq_le(a, c),
    decreases a.len(),
{
    if a.len() > 0 && b.len() > 0 && c.len() > 0 && (a[0] as u32) == (b[0] as u32) && (b[0] as u32) == (c[0] as u32) {
        lemma_seq_le_trans(a.drop_first(), b.drop_first(), c.drop_first());
    }
}

/// Mappings compare by kind, then property name.
pub open spec fn mapping_order() -> spec_fn(MappingView, MappingView) -> bool {
    |a: MappingView, b: MappingView| mapping_le(a, b)
}

proof fn lemma_mapping_order_total()
    ensures
        total_preorder(mapping_order()),
{
    let le = mapping_order();
    assert forall|a: MappingView, b: MappingView| #[trigger] le(a, b) || le(b, a) by {
        lemma_seq_le_total(a.property.name);
    }
    assert forall|a: MappingView, b: MappingView, c: MappingView| #[trigger] le(a, b) && #[trigger] le(b, c) implies le(a, c) by {
        if kind_rank(a.kind) == kind_rank(b.kind) && kind_rank(b.kind) == kind_rank(c.kind) {
            lemma_seq_le_trans(a.property.name, b.property.name, c.property.name);
        }
    }
}

proof fn lemma_insert_mapping_by(s: Seq<MappingView>, m: MappingView)
    ensures
        insert_mapping(s, m) == insert_by(s, m, mapping_order()),
    decreases s.len(),
{
    if s.len() > 0 {
        lemma_insert_mapping_by(s.drop_last(), m);
    }
}

proof fn lemma_sort_mappings_by(s: Seq<MappingView>)
    ensures
        sort_mappings(s) == insertion_sort(s, mapping_order()),
    decreases s.len(),
{
    if s.len() > 0 {
        lemma_sort_mappings_by(s.drop_last());
        lemma_insert_mapping_by(sort_mappings(s.drop_last()), s.last());
    }
}

/// Sorted mappings come with dependencies before plugins and, within a kind,
/// in order of property name; they are the mappings that went in, each as
/// often as before.
pub proof fn lemma_sorted_mappings_ordered(s: Seq<MappingView>)
    ensures
        forall|i: int, j: int| 0 <= i < j < sort_mappings(s).len() ==> mapping_le(#[trigger] sort_mappings(s)[i], #[trigger] sort_mappings(s)[j]),
        sort_mappings(s).to_multiset() == s.to_multiset(),
{
    lemma_mapping_order_total();
    lemma_sort_mappings_by(s);
    lemma_insertion_sort(s, mapping_order());
    let r = sort_mappings(s);
    assert forall|i: int, j: int| 0 <= i < j < r.len() implies mapping_le(#[trigger] r[i], #[trigger] r[j]) by {
        assert(mapping_order()(r[i], r[j]));
    }
}

/// No orphan property is used by a mapping or is a `project.*` built-in.
pub proof fn lemma_orphans_unused(
    entries: Seq<(Seq<char>, Seq<char>)>,
    mappings: Seq<MappingView>,
    props: Map<Seq<char>, Seq<char>>,
    sources: Map<Seq<char>, Seq<char>>,
)
    ensures
        forall|i: int| 0 <= i < spec_orphans(entries, mappings, props, sources).len() ==> {
            let name = (#[trigger] spec_orphans(entries, mappings, props, sources)[i]).name;
            !uses_property(mappings, name) && !is_prefix("project."@, name)
        },
    decreases entries.len(),
{
    if entries.len() > 0 {
        lemma_orphans_unused(entries.drop_last(), mappings, props, sources);
        let rest = spec_orphans(entries.drop_last(), mappings, props, sources);
        let out = spec_orphans(entries, mappings, props, sources);
        assert forall|i: int| 0 <= i < out.len() implies {
            let name = (#[trigger] out[i]).name;
            !uses_property(mappings, name) && !is_prefix("project."@, name)
        } by {
            if i < rest.len() {
                assert(out[i] == rest[i]);
            }
        }
    }
}

/// What discovery finds: mappings with dependencies before plugins and, within
/// a kind, in order of property name; no two mappings for the same artifact
/// coordinates; and orphan properties that no mapping uses and that are no
/// `project.*` built-ins.
pub proof fn lemma_discovery_result(root_path: Seq<char>, root: ProjectView, children: Seq<(Seq<char>, ProjectView)>)
    ensures
        ({
            let d = spec_discover(root_path, root, children);
            &&& forall|i: int, j: int| 0 <= i < j < d.mappings.len() ==> mapping_le(#[trigger] d.mappings[i], #[trigger] d.mappings[j])
            &&& forall|i: int, j: int| 0 <= i < j < d.mappings.len() ==> mapping_key(#[trigger] d.mappings[i]) != mapping_key(#[trigger] d.mappings[j])
            &&& forall|i: int| 0 <= i < d.orphan_properties.len() ==> {
                let name = (#[trigger] d.orphan_properties[i]).name;
                !uses_property(d.mappings, name) && !is_prefix("project."@, name)
            }
        }),
{
    let st = walk_children(root_path, root, children);
    let dedup = spec_deduplicate(st.mappings);
    lemma_deduplicate_unique(st.mappings);
    lemma_sorted_mappings_ordered(dedup);
    lemma_permutation_keeps_distinct_keys(dedup, sort_mappings(dedup), |m: MappingView| mapping_key(m));
    let mappings = sort_mappings(dedup);
    lemma_orphans_unused(st.properties, mappings, pairs_map(st.properties), pairs_map(st.sources));
}

// ---------------------------------------------------------------------------
// Laws
// ---------------------------------------------------------------------------

/// A `${name}` reference names `name`.
pub proof fn lemma_reference_names_property(name: Seq<char>)
    requires
        name.len() > 0,
    ensures
        spec_extract_property_reference(seq!['$', '{'] + name + seq!['}']) == Some(name),
{
    let r = seq!['$', '{'] + name + seq!['}'];
    assert(r[0] == '$');
    assert(r.last() == '}');
    assert(!crate::text::spec_is_whitespace('$'));
    assert(!crate::text::spec_is_whitespace('}'));
    assert(crate::text::spec_trim_start(r) == r);
    assert(crate::text::spec_trim_end(r) == r);
    assert(r.subrange(2, r.len() - 1) =~= name);
}

/// A value that is no reference resolves to itself, and so does a reference to
/// a property that is not defined.
pub proof fn lemma_resolve_unresolvable_is_unchanged(value: Seq<char>, props: Map<Seq<char>, Seq<char>>)
    requires
        match spec_extract_property_reference(value) {
            Some(name) => !props.contains_key(name),
            None => true,
        },
    ensures
        spec_resolve_value(value, props) == value,
{
}

/// A reference to a property whose value is no reference resolves to that value.
pub proof fn lemma_resolve_one_step(value: Seq<char>, props: Map<Seq<char>, Seq<char>>, name: Seq<char>)
    requires
        spec_extract_property_reference(value) == Some(name),
        props.contains_key(name),
        spec_extract_property_reference(props[name]) is None,
    ensures
        spec_resolve_value(value, props) == props[name],
{
    assert(resolve_from(props[name], props, 9) == props[name]);
}

/// After deduplication no two mappings share coordinates, and the coordinates
/// present are exactly those of the input.
pub proof fn lemma_deduplicate_unique(s: Seq<MappingView>)
    ensures
        forall|i: int, j: int| 0 <= i < j < spec_deduplicate(s).len() ==> mapping_key(#[trigger] spec_deduplicate(s)[i]) != mapping_key(#[trigger] spec_deduplicate(s)[j]),
        forall|k: Seq<char>| has_mapping_key(spec_deduplicate(s), k) == has_mapping_key(s, k),
    decreases s.len(),
{
    if s.len() > 0 {
        let t = s.drop_last();
        lemma_deduplicate_unique(t);
        lemma_dedup_keys(t, mapping_key(s.last()));
        let d = spec_deduplicate(t);
        if !has_mapping_key(t, mapping_key(s.last())) {
            let e = d.push(s.last());
            assert forall|i: int, j: int| 0 <= i < j < e.len() implies mapping_key(#[trigger] e[i]) != mapping_key(#[trigger] e[j]) by {
                if j == d.len() {
                    assert(e[i] == d[i]);
                    if mapping_key(d[i]) == mapping_key(s.last()) {
                        assert(has_mapping_key(d, mapping_key(s.last())));
                    }
                } else {
                    assert(e[i] == d[i] && e[j] == d[j]);
                }
            }
        }
    }
    assert forall|k: Seq<char>| has_mapping_key(spec_deduplicate(s), k) == has_mapping_key(s, k) by {
        lemma_dedup_keys(s, k);
    }
}

/// After deduplication no two repositories share a URL (trailing slashes aside),
/// and the URLs present are exactly those of the input.
pub proof fn lemma_deduplicate_repos_unique(s: Seq<RepositoryView>)
    ensures
        forall|i: int, j: int| 0 <= i < j < spec_deduplicate_repos(s).len() ==> repo_key(#[trigger] spec_deduplicate_repos(s)[i]) != repo_key(#[trigger] spec_deduplicate_repos(s)[j]),
        forall|k: Seq<char>| has_repo_key(spec_deduplicate_repos(s), k) == has_repo_key(s, k),
    decreases s.len(),
{
    if s.len() > 0 {
        let t = s.drop_last();
        lemma_deduplicate_repos_unique(t);
        lemma_dedup_repo_keys(t, repo_key(s.last()));
        let d = spec_deduplicate_repos(t);
        if !has_repo_key(t, repo_key(s.last())) {
            let e = d.push(s.last());
            assert forall|i: int, j: int| 0 <= i < j < e.len() implies repo_key(#[trigger] e[i]) != repo_key(#[trigger] e[j]) by {
                if j == d.len() {
                    assert(e[i] == d[i]);
                    if repo_key(d[i]) == repo_key(s.last()) {
                        assert(has_repo_key(d, repo_key(s.last())));
                    }
                } else {
                    assert(e[i] == d[i] && e[j] == d[j]);
                }
            }
        }
    }
    assert forall|k: Seq<char>| has_repo_key(spec_deduplicate_repos(s), k) == has_repo_key(s, k) by {
        lemma_dedup_repo_keys(s, k);
    }
}

/// Merging a child's properties keeps every property already merged, with its value.
proof fn lemma_merge_keeps(
    props: Seq<(Seq<char>, Seq<char>)>,
    sources: Seq<(Seq<char>, Seq<char>)>,
    child: Seq<(Seq<char>, Seq<char>)>,
    path: Seq<char>,
)
    requires
        crate::props::distinct_keys(props),
    ensures
        crate::props::distinct_keys(merge_child_properties(props, sources, child, path).0),
        forall|k: Seq<char>| #[trigger] pairs_map(props).contains_key(k) ==> pairs_map(merge_child_properties(props, sources, child, path).0).contains_key(k)
            && pairs_map(merge_child_properties(props, sources, child, path).0)[k] == pairs_map(props)[k],
    decreases child.len(),
{
    if child.len() > 0 {
        lemma_merge_keeps(props, sources, child.drop_last(), path);
        let (p, s) = merge_child_properties(props, sources, child.drop_last(), path);
        let (name, value) = child.last();
        if !crate::props::has_key(p, name) {
            crate::props::lemma_pairs_insert(p, name, value);
            assert forall|k: Seq<char>| #[trigger] pairs_map(props).contains_key(k) implies k != name by {
                assert(pairs_map(p).contains_key(k));
            }
        }
    }
}

proof fn lemma_inject_distinct(
    p: Seq<(Seq<char>, Seq<char>)>,
    group_id: Option<Seq<char>>,
    artifact_id: Option<Seq<char>>,
    version: Option<Seq<char>>,
    packaging: Option<Seq<char>>,
)
    requires
        crate::props::distinct_keys(p),
    ensures
        crate::props::distinct_keys(spec_inject(p, group_id, artifact_id, version, packaging)),
{
    let p1 = match group_id {
        Some(g) => pairs_insert(p, "project.groupId"@, g),
        None => p,
    };
    if let Some(g) = group_id {
        crate::props::lemma_pairs_insert(p, "project.groupId"@, g);
    }
    let p2 = match artifact_id {
        Some(a) => pairs_insert(p1, "project.artifactId"@, a),
        None => p1,
    };
    if let Some(a) = artifact_id {
        crate::props::lemma_pairs_insert(p1, "project.artifactId"@, a);
    }
    let p3 = match version {
        Some(v) => pairs_insert(p2, "project.version"@, v),
        None => p2,
    };
    if let Some(v) = version {
        crate::props::lemma_pairs_insert(p2, "project.version"@, v);
    }
    let k = match packaging {
        Some(k) => k,
        None => "jar"@,
    };
    crate::props::lemma_pairs_insert(p3, "project.packaging"@, k);
}

/// The root POM wins: every property the root POM defines (its own and its
/// implicit `project.*` ones) keeps the root's value whatever child modules
/// define.
pub proof fn lemma_root_properties_win(
    root_path: Seq<char>,
    root: ProjectView,
    children: Seq<(Seq<char>, ProjectView)>,
    k: Seq<char>,
)
    requires
        crate::props::distinct_keys(root.properties),
        pairs_map(root_state(root_path, root).properties).contains_key(k),
    ensures
        pairs_map(walk_children(root_path, root, children).properties).contains_key(k),
        pairs_map(walk_children(root_path, root, children).properties)[k] == pairs_map(
            root_state(root_path, root).properties,
        )[k],
    decreases children.len(),
{
    if children.len() == 0 {
    } else {
        lemma_root_properties_win(root_path, root, children.drop_last(), k);
        lemma_walk_distinct(root_path, root, children.drop_last());
        let st = walk_children(root_path, root, children.drop_last());
        lemma_merge_keeps(st.properties, st.sources, children.last().1.properties, children.last().0);
    }
}

proof fn lemma_walk_distinct(root_path: Seq<char>, root: ProjectView, children: Seq<(Seq<char>, ProjectView)>)
    requires
        crate::props::distinct_keys(root.properties),
    ensures
        crate::props::distinct_keys(walk_children(root_path, root, children).properties),
    decreases children.len(),
{
    if children.len() == 0 {
        lemma_inject_distinct(root.properties, root.group_id, root.artifact_id, root.version, root.packaging);
    } else {
        lemma_walk_distinct(root_path, root, children.drop_last());
        let st = walk_children(root_path, root, children.drop_last());
        lemma_merge_keeps(st.properties, st.sources, children.last().1.properties, children.last().0);
    }
}

} // verus!
