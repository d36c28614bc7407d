//! The POM model and the POM parser.
//!
//! [`parse_pom_str`] reads a `pom.xml` document with `quick_xml` and collects its
//! modules, properties, dependencies, plugins and repositories. The collection
//! is [`parse_pom_tokens`], a verified state machine over the document's token
//! list; its contract is the step function [`pom_step`] run over the tokens.

use vstd::prelude::*;

use crate::props::{pairs_insert, PropertyMap};
use crate::text::{ends_with, spec_trim, str_eq, trim};
use crate::xml::{lossy_utf8, read_tokens, token_views, utf8_lossy, xml_tokens, TokenView, XmlToken};

verus! {

/// The view of an optional string.
pub open spec fn opt_view(o: Option<String>) -> Option<Seq<char>> {
    match o {
        Some(s) => Some(s@),
        None => None,
    }
}

/// Whether an artifact is declared as a dependency or as a plugin.
#[derive(Debug, Clone, Copy, PartialEq, Eq, PartialOrd, Ord, Structural)]
pub enum ArtifactKind {
    Dependency,
    Plugin,
}

impl ArtifactKind {
    /// The kind's display name.
    pub open spec fn spec_name(self) -> Seq<char> {
        match self {
            ArtifactKind::Dependency => "Dependency"@,
            ArtifactKind::Plugin => "Plugin"@,
        }
    }

    /// The kind's display name (`Dependency` or `Plugin`).
    pub fn to_string(&self) -> (s: String)
        ensures
            s@ == self.spec_name(),
    {
        match self {
            ArtifactKind::Dependency => String::from_str("Dependency"),
            ArtifactKind::Plugin => String::from_str("Plugin"),
        }
    }
}

/// Maven coordinates of a dependency or plugin, as written in the POM.
#[derive(Debug)]
pub struct Artifact {
    pub group_id: Option<String>,
    pub artifact_id: Option<String>,
    pub version: Option<String>,
}

/// The view of an [`Artifact`].
pub struct ArtifactView {
    pub group_id: Option<Seq<char>>,
    pub artifact_id: Option<Seq<char>>,
    pub version: Option<Seq<char>>,
}

impl View for Artifact {
    type V = ArtifactView;

    open spec fn view(&self) -> ArtifactView {
        ArtifactView {
            group_id: opt_view(self.group_id),
            artifact_id: opt_view(self.artifact_id),
            version: opt_view(self.version),
        }
    }
}

/// Whether a repository serves artifacts or plugins.
#[derive(Debug, Clone, Copy, PartialEq, Eq, Structural)]
pub enum RepositoryKind {
    Standard,
    Plugin,
}

/// A repository declared in `<repositories>` or `<pluginRepositories>`.
#[derive(Debug)]
pub struct Repository {
    pub id: Option<String>,
    pub name: Option<String>,
    pub url: String,
    pub kind: RepositoryKind,
}

/// The view of a [`Repository`].
pub struct RepositoryView {
    pub id: Option<Seq<char>>,
    pub name: Option<Seq<char>>,
    pub url: Seq<char>,
    pub kind: RepositoryKind,
}

impl View for Repository {
    type V = RepositoryView;

    open spec fn view(&self) -> RepositoryView {
        RepositoryView { id: opt_view(self.id), name: opt_view(self.name), url: self.url@, kind: self.kind }
    }
}

impl Repository {
    /// A copy with the same fields.
    pub fn copy(&self) -> (r: Self)
        ensures
            r@ == self@,
    {
        Repository {
            id: crate::model::copy_opt_string(&self.id),
            name: crate::model::copy_opt_string(&self.name),
            url: self.url.clone(),
            kind: self.kind,
        }
    }
}

/// What a POM declares.
///
/// `group_id`, `artifact_id`, `version` and `packaging` are the project's own
/// coordinates, the children of the document element of those names.
#[derive(Debug)]
pub struct Project {
    pub modules: Vec<String>,
    pub properties: PropertyMap,
    pub artifacts: Vec<(Artifact, ArtifactKind)>,
    pub repositories: Vec<Repository>,
    pub group_id: Option<String>,
    pub artifact_id: Option<String>,
    pub version: Option<String>,
    pub packaging: Option<String>,
}

/// The view of a [`Project`]; the properties are kept as their ordered entries.
pub struct ProjectView {
    pub modules: Seq<Seq<char>>,
    pub properties: Seq<(Seq<char>, Seq<char>)>,
    pub artifacts: Seq<(ArtifactView, ArtifactKind)>,
    pub repositories: Seq<RepositoryView>,
    pub group_id: Option<Seq<char>>,
    pub artifact_id: Option<Seq<char>>,
    pub version: Option<Seq<char>>,
    pub packaging: Option<Seq<char>>,
}

/// The views of a list of strings.
pub open spec fn strings_view(v: Seq<String>) -> Seq<Seq<char>> {
    v.map_values(|s: String| s@)
}

impl View for Project {
    type V = ProjectView;

    open spec fn view(&self) -> ProjectView {
        ProjectView {
            modules: strings_view(self.modules@),
            properties: self.properties.pairs(),
            artifacts: self.artifacts@.map_values(|a: (Artifact, ArtifactKind)| (a.0@, a.1)),
            repositories: self.repositories@.map_values(|r: Repository| r@),
            group_id: opt_view(self.group_id),
            artifact_id: opt_view(self.artifact_id),
            version: opt_view(self.version),
            packaging: opt_view(self.packaging),
        }
    }
}

/// The view of a project with nothing in it.
pub open spec fn empty_project() -> ProjectView {
    ProjectView {
        modules: Seq::empty(),
        properties: Seq::empty(),
        artifacts: Seq::empty(),
        repositories: Seq::empty(),
        group_id: None,
        artifact_id: None,
        version: None,
        packaging: None,
    }
}

impl Default for Project {
    fn default() -> (p: Self)
        ensures
            p@ == empty_project(),
    {
        let p = Project {
            modules: Vec::new(),
            properties: PropertyMap::new(),
            artifacts: Vec::new(),
            repositories: Vec::new(),
            group_id: None,
            artifact_id: None,
            version: None,
            packaging: None,
        };
        assert(p@.modules =~= Seq::<Seq<char>>::empty());
        assert(p@.artifacts =~= Seq::<(ArtifactView, ArtifactKind)>::empty());
        assert(p@.repositories =~= Seq::<RepositoryView>::empty());
        p
    }
}

// ---------------------------------------------------------------------------
// Element paths
// ---------------------------------------------------------------------------

/// Some element of `path` is `name`.
pub open spec fn path_has(path: Seq<Seq<char>>, name: Seq<char>) -> bool {
    exists|i: int| 0 <= i < path.len() && #[trigger] path[i] == name
}

/// The last element of `path` is `name`.
pub open spec fn path_ends_in(path: Seq<Seq<char>>, name: Seq<char>) -> bool {
    path.len() > 0 && path.last() == name
}

fn path_contains(path: &Vec<String>, name: &str) -> (b: bool)
    ensures
        b == path_has(strings_view(path@), name@),
{
    let mut i: usize = 0;
    while i < path.len()
        invariant
            i <= path@.len(),
            forall|j: int| 0 <= j < i ==> #[trigger] strings_view(path@)[j] != name@,
        decreases path@.len() - i,
    {
        if str_eq(path[i].as_str(), name) {
            assert(strings_view(path@)[i as int] == name@);
            return true;
        }
        i = i + 1;
    }
    false
}

fn path_last_is(path: &Vec<String>, name: &str) -> (b: bool)
    ensures
        b == path_ends_in(strings_view(path@), name@),
{
    if path.len() == 0 {
        false
    } else {
        str_eq(path[path.len() - 1].as_str(), name)
    }
}

/// The element sits inside the project's `<properties>`.
pub open spec fn spec_is_in_properties(path: Seq<Seq<char>>) -> bool {
    path.len() >= 2 && path[1] == "properties"@
}

/// The element sits inside the project's `<properties>`.
pub fn is_in_properties(path: &Vec<String>) -> (b: bool)
    ensures
        b == spec_is_in_properties(strings_view(path@)),
{
    path.len() >= 2 && str_eq(path[1].as_str(), "properties")
}

/// The element is a `<module>` of the project's `<modules>`, or of the
/// `<modules>` of one of its `<profiles>`.
pub open spec fn spec_is_module_element(path: Seq<Seq<char>>) -> bool {
    ||| (path.len() == 3 && path[1] == "modules"@ && path[2] == "module"@)
    ||| (path.len() == 5 && path[1] == "profiles"@ && path[2] == "profile"@ && path[3] == "modules"@ && path[4] == "module"@)
}

/// The element is a `<module>` of the project's `<modules>`, or of the
/// `<modules>` of one of its `<profiles>`.
pub fn is_module_element(path: &Vec<String>) -> (b: bool)
    ensures
        b == spec_is_module_element(strings_view(path@)),
{
    (path.len() == 3 && str_eq(path[1].as_str(), "modules") && str_eq(path[2].as_str(), "module")) || (path.len() == 5
        && str_eq(path[1].as_str(), "profiles") && str_eq(path[2].as_str(), "profile") && str_eq(path[3].as_str(), "modules")
        && str_eq(path[4].as_str(), "module"))
}

/// The element is a `<dependency>` inside `<dependencies>` or `<dependencyManagement>`.
pub open spec fn spec_is_dependency_element(path: Seq<Seq<char>>) -> bool {
    path_ends_in(path, "dependency"@) && (path_has(path, "dependencies"@) || path_has(
        path,
        "dependencyManagement"@,
    ))
}

/// The element is a `<dependency>` inside `<dependencies>` or `<dependencyManagement>`.
pub fn is_dependency_element(path: &Vec<String>) -> (b: bool)
    ensures
        b == spec_is_dependency_element(strings_view(path@)),
{
    path_last_is(path, "dependency") && (path_contains(path, "dependencies") || path_contains(
        path,
        "dependencyManagement",
    ))
}

/// The element is a `<plugin>` inside `<plugins>` or `<pluginManagement>`.
pub open spec fn spec_is_plugin_element(path: Seq<Seq<char>>) -> bool {
    path_ends_in(path, "plugin"@) && (path_has(path, "plugins"@) || path_has(
        path,
        "pluginManagement"@,
    ))
}

/// The element is a `<plugin>` inside `<plugins>` or `<pluginManagement>`.
pub fn is_plugin_element(path: &Vec<String>) -> (b: bool)
    ensures
        b == spec_is_plugin_element(strings_view(path@)),
{
    path_last_is(path, "plugin") && (path_contains(path, "plugins") || path_contains(
        path,
        "pluginManagement",
    ))
}

/// The element is a `<repository>` inside `<repositories>`, outside `<pluginRepositories>`.
pub open spec fn spec_is_repository_element(path: Seq<Seq<char>>) -> bool {
    path_ends_in(path, "repository"@) && path_has(path, "repositories"@) && !path_has(
        path,
        "pluginRepositories"@,
    )
}

/// The element is a `<repository>` inside `<repositories>`, outside `<pluginRepositories>`.
pub fn is_repository_element(path: &Vec<String>) -> (b: bool)
    ensures
        b == spec_is_repository_element(strings_view(path@)),
{
    path_last_is(path, "repository") && path_contains(path, "repositories") && !path_contains(
        path,
        "pluginRepositories",
    )
}

/// The element is a `<pluginRepository>` inside `<pluginRepositories>`.
pub open spec fn spec_is_plugin_repository_element(path: Seq<Seq<char>>) -> bool {
    path_ends_in(path, "pluginRepository"@) && path_has(path, "pluginRepositories"@)
}

/// The element is a `<pluginRepository>` inside `<pluginRepositories>`.
pub fn is_plugin_repository_element(path: &Vec<String>) -> (b: bool)
    ensures
        b == spec_is_plugin_repository_element(strings_view(path@)),
{
    path_last_is(path, "pluginRepository") && path_contains(path, "pluginRepositories")
}

/// The elements of `path` joined with `/`.
pub open spec fn join_path(path: Seq<Seq<char>>) -> Seq<char>
    decreases path.len(),
{
    if path.len() == 0 {
        Seq::empty()
    } else if path.len() == 1 {
        path[0]
    } else {
        join_path(path.drop_last()) + "/"@ + path.last()
    }
}

fn join_with_slash(path: &Vec<String>) -> (s: String)
    ensures
        s@ == join_path(strings_view(path@)),
{
    let ghost p = strings_view(path@);
    let mut s = String::new();
    let mut i: usize = 0;
    while i < path.len()
        invariant
            p == strings_view(path@),
            i <= path@.len(),
            s@ == join_path(p.subrange(0, i as int)),
        decreases path@.len() - i,
    {
        if i > 0 {
            s.append("/");
        }
        s.append(path[i].as_str());
        proof {
            let q = p.subrange(0, i as int + 1);
            assert(q.drop_last() =~= p.subrange(0, i as int));
            if i == 0 {
                assert(s@ =~= q[0]);
            }
        }
        i = i + 1;
    }
    assert(p.subrange(0, p.len() as int) =~= p);
    s
}

/// The characters after the last `:` of `s` (all of `s` where it has none).
pub open spec fn after_last_colon(s: Seq<char>) -> Seq<char>
    decreases s.len(),
{
    if s.len() == 0 {
        s
    } else if s.last() == ':' {
        Seq::empty()
    } else {
        after_last_colon(s.drop_last()).push(s.last())
    }
}

/// The local name of a raw tag name: its text after the last `:`.
pub open spec fn pom_local_name(raw: Seq<u8>) -> Seq<char> {
    after_last_colon(lossy_utf8(raw))
}

pub(crate) fn pom_local_name_exec(raw: &Vec<u8>) -> (s: String)
    ensures
        s@ == pom_local_name(raw@),
{
    let full = utf8_lossy(raw.as_slice());
    let chars = crate::text::chars_of(full.as_str());
    let n = chars.len();
    let mut k: usize = n;
    assert(chars@.subrange(0, n as int) =~= chars@);
    assert(after_last_colon(chars@) + chars@.subrange(n as int, n as int) =~= after_last_colon(chars@));
    while k > 0 && chars[k - 1] != ':'
        invariant
            k <= n,
            n == chars@.len(),
            after_last_colon(chars@) == after_last_colon(chars@.subrange(0, k as int)) + chars@.subrange(
                k as int,
                n as int,
            ),
        decreases k,
    {
        proof {
            let t = chars@.subrange(0, k as int);
            assert(t.drop_last() =~= chars@.subrange(0, k - 1));
            assert(chars@.subrange(k - 1, n as int) =~= seq![t.last()] + chars@.subrange(k as int, n as int));
        }
        k = k - 1;
    }
    proof {
        assert(chars@.subrange(0, n as int) =~= chars@);
        if k > 0 {
            let t = chars@.subrange(0, k as int);
            assert(after_last_colon(t) == Seq::<char>::empty());
        }
        assert(Seq::<char>::empty() + chars@.subrange(k as int, n as int) =~= chars@.subrange(k as int, n as int));
    }
    crate::text::string_from_range(&chars, k, n)
}

} // verus!

verus! {

// ---------------------------------------------------------------------------
// The parser as a state machine over tokens
// ---------------------------------------------------------------------------

/// The parser's state between two tokens.
pub struct PomState {
    /// The local names of the open elements, outermost first.
    pub path: Seq<Seq<char>>,
    /// The text gathered since the last start or end tag.
    pub text: Seq<char>,
    /// The dependencies and plugins being read, innermost last.
    pub open_artifacts: Seq<(ArtifactView, ArtifactKind)>,
    /// The repositories being read, innermost last.
    pub open_repos: Seq<RepositoryView>,
    /// What has been collected so far.
    pub project: ProjectView,
}

/// What one token does to the parser.
pub enum PomStep {
    Next(PomState),
    Done(ProjectView),
    Failed(Seq<char>),
}

/// The state before the first token.
pub open spec fn pom_initial() -> PomState {
    PomState {
        path: Seq::empty(),
        text: Seq::empty(),
        open_artifacts: Seq::empty(),
        open_repos: Seq::empty(),
        project: empty_project(),
    }
}

/// An artifact with no coordinates yet.
pub open spec fn blank_artifact() -> ArtifactView {
    ArtifactView { group_id: None, artifact_id: None, version: None }
}

/// A repository with nothing read yet.
pub open spec fn blank_repo(kind: RepositoryKind) -> RepositoryView {
    RepositoryView { id: None, name: None, url: Seq::empty(), kind }
}

/// A start tag with local name `name`: the element is opened, the text is reset,
/// and a dependency, plugin or repository element starts a new record.
pub open spec fn pom_start(s: PomState, name: Seq<char>) -> PomState {
    let path = s.path.push(name);
    let s1 = PomState { path, text: Seq::empty(), ..s };
    if spec_is_dependency_element(path) {
        PomState { open_artifacts: s.open_artifacts.push((blank_artifact(), ArtifactKind::Dependency)), ..s1 }
    } else if spec_is_plugin_element(path) {
        PomState { open_artifacts: s.open_artifacts.push((blank_artifact(), ArtifactKind::Plugin)), ..s1 }
    } else if spec_is_repository_element(path) {
        PomState { open_repos: s.open_repos.push(blank_repo(RepositoryKind::Standard)), ..s1 }
    } else if spec_is_plugin_repository_element(path) {
        PomState { open_repos: s.open_repos.push(blank_repo(RepositoryKind::Plugin)), ..s1 }
    } else {
        s1
    }
}

/// An element of path `cur` with text `value` ends inside an artifact record.
pub open spec fn set_coordinate(a: ArtifactView, cur: Seq<char>, value: Seq<char>) -> ArtifactView {
    if crate::text::is_suffix("/groupId"@, cur) {
        ArtifactView { group_id: Some(value), ..a }
    } else if crate::text::is_suffix("/artifactId"@, cur) {
        ArtifactView { artifact_id: Some(value), ..a }
    } else if crate::text::is_suffix("/version"@, cur) {
        ArtifactView { version: Some(value), ..a }
    } else {
        a
    }
}

/// An element of path `cur` with text `value` ends inside a repository record.
pub open spec fn set_repo_field(r: RepositoryView, cur: Seq<char>, value: Seq<char>) -> RepositoryView {
    if crate::text::is_suffix("/id"@, cur) {
        RepositoryView { id: Some(value), ..r }
    } else if crate::text::is_suffix("/name"@, cur) {
        RepositoryView { name: Some(value), ..r }
    } else if crate::text::is_suffix("/url"@, cur) {
        RepositoryView { url: value, ..r }
    } else {
        r
    }
}

/// A child of the document element ends: `groupId`, `artifactId`, `version` and
/// `packaging` are the project's own coordinates.
pub open spec fn set_own_coordinate(p: ProjectView, path: Seq<Seq<char>>, value: Seq<char>) -> ProjectView {
    if path.len() == 2 && path[1] == "groupId"@ {
        ProjectView { group_id: Some(value), ..p }
    } else if path.len() == 2 && path[1] == "artifactId"@ {
        ProjectView { artifact_id: Some(value), ..p }
    } else if path.len() == 2 && path[1] == "version"@ {
        ProjectView { version: Some(value), ..p }
    } else if path.len() == 2 && path[1] == "packaging"@ {
        ProjectView { packaging: Some(value), ..p }
    } else {
        p
    }
}

/// The project after the end of an element with path `path` and trimmed text
/// `value`, before any record is closed.
pub open spec fn pom_end_fields(p: ProjectView, path: Seq<Seq<char>>, value: Seq<char>) -> ProjectView {
    let p1 = if spec_is_in_properties(path) && path.len() > 2 {
        ProjectView { properties: pairs_insert(p.properties, path.last(), value), ..p }
    } else {
        p
    };
    let p2 = if spec_is_module_element(path) {
        ProjectView { modules: p1.modules.push(value), ..p1 }
    } else {
        p1
    };
    set_own_coordinate(p2, path, value)
}

/// An end tag: the text of the element is stored where its path says, a
/// finished dependency or plugin is added to the project, a finished repository
/// is added where it has a URL, and the element is closed.
pub open spec fn pom_end(s: PomState) -> PomState {
    let path = s.path;
    let value = spec_trim(s.text);
    let cur = join_path(path);
    let p3 = pom_end_fields(s.project, path, value);
    let arts = if s.open_artifacts.len() > 0 {
        let last = s.open_artifacts.last();
        s.open_artifacts.update(s.open_artifacts.len() - 1, (set_coordinate(last.0, cur, value), last.1))
    } else {
        s.open_artifacts
    };
    let repos = if s.open_repos.len() > 0 {
        s.open_repos.update(s.open_repos.len() - 1, set_repo_field(s.open_repos.last(), cur, value))
    } else {
        s.open_repos
    };
    let closes_artifact = (spec_is_dependency_element(path) || spec_is_plugin_element(path))
        && arts.len() > 0;
    let arts2 = if closes_artifact { arts.drop_last() } else { arts };
    let p4 = if closes_artifact {
        ProjectView { artifacts: p3.artifacts.push(arts.last()), ..p3 }
    } else {
        p3
    };
    let closes_repo = (spec_is_repository_element(path) || spec_is_plugin_repository_element(path))
        && repos.len() > 0;
    let repos2 = if closes_repo { repos.drop_last() } else { repos };
    let p5 = if closes_repo && repos.last().url.len() > 0 {
        ProjectView { repositories: p4.repositories.push(repos.last()), ..p4 }
    } else {
        p4
    };
    PomState {
        path: if path.len() > 0 { path.drop_last() } else { path },
        text: Seq::empty(),
        open_artifacts: arts2,
        open_repos: repos2,
        project: p5,
    }
}

/// The message for a text node that cannot be decoded.
pub open spec fn unescape_failure() -> Seq<char> {
    "Failed to unescape XML text"@
}

/// The message for a syntax error described by `message`.
pub open spec fn xml_parse_error(message: Seq<char>) -> Seq<char> {
    "XML parse error: "@ + message
}

/// What one token does to the parser.
pub open spec fn pom_step(s: PomState, t: TokenView) -> PomStep {
    match t {
        TokenView::Start { name, .. } => PomStep::Next(pom_start(s, pom_local_name(name))),
        TokenView::End { .. } => PomStep::Next(pom_end(s)),
        TokenView::Text { text } => match text {
            Some(t) => PomStep::Next(PomState { text: s.text + t, ..s }),
            None => PomStep::Failed(unescape_failure()),
        },
        TokenView::Eof => PomStep::Done(s.project),
        TokenView::Error { message } => PomStep::Failed(xml_parse_error(message)),
    }
}

/// The parser run over `tokens` from state `s`: the project at the end of the
/// document, or the message of the first failure.
pub open spec fn pom_run(s: PomState, tokens: Seq<TokenView>) -> Result<ProjectView, Seq<char>>
    decreases tokens.len(),
{
    if tokens.len() == 0 {
        Ok(s.project)
    } else {
        match pom_step(s, tokens[0]) {
            PomStep::Next(s2) => pom_run(s2, tokens.drop_first()),
            PomStep::Done(p) => Ok(p),
            PomStep::Failed(m) => Err(m),
        }
    }
}

/// What a POM's token list declares.
pub open spec fn spec_parse_pom(tokens: Seq<TokenView>) -> Result<ProjectView, Seq<char>> {
    pom_run(pom_initial(), tokens)
}

} // verus!

verus! {

struct PomParser {
    path: Vec<String>,
    text: String,
    open_artifacts: Vec<(Artifact, ArtifactKind)>,
    open_repos: Vec<Repository>,
    project: Project,
}

impl View for PomParser {
    type V = PomState;

    closed spec fn view(&self) -> PomState {
        PomState {
            path: strings_view(self.path@),
            text: self.text@,
            open_artifacts: self.open_artifacts@.map_values(|a: (Artifact, ArtifactKind)| (a.0@, a.1)),
            open_repos: self.open_repos@.map_values(|r: Repository| r@),
            project: self.project@,
        }
    }
}

fn blank_artifact_exec() -> (a: Artifact)
    ensures
        a@ == blank_artifact(),
{
    Artifact { group_id: None, artifact_id: None, version: None }
}

fn blank_repo_exec(kind: RepositoryKind) -> (r: Repository)
    ensures
        r@ == blank_repo(kind),
{
    Repository { id: None, name: None, url: String::new(), kind }
}

fn start_element(st: &mut PomParser, name: String)
    ensures
        final(st)@ == pom_start(old(st)@, name@),
{
    let ghost s = st@;
    st.path.push(name);
    st.text = String::new();
    assert(strings_view(st.path@) =~= s.path.push(name@));
    if is_dependency_element(&st.path) {
        st.open_artifacts.push((blank_artifact_exec(), ArtifactKind::Dependency));
    } else if is_plugin_element(&st.path) {
        st.open_artifacts.push((blank_artifact_exec(), ArtifactKind::Plugin));
    } else if is_repository_element(&st.path) {
        st.open_repos.push(blank_repo_exec(RepositoryKind::Standard));
    } else if is_plugin_repository_element(&st.path) {
        st.open_repos.push(blank_repo_exec(RepositoryKind::Plugin));
    }
    assert(st@.open_artifacts =~= pom_start(s, name@).open_artifacts);
    assert(st@.open_repos =~= pom_start(s, name@).open_repos);
}

fn set_coordinate_exec(a: &mut Artifact, cur: &str, value: &String)
    ensures
        final(a)@ == set_coordinate(old(a)@, cur@, value@),
{
    if ends_with(cur, "/groupId") {
        a.group_id = Some(value.clone());
    } else if ends_with(cur, "/artifactId") {
        a.artifact_id = Some(value.clone());
    } else if ends_with(cur, "/version") {
        a.version = Some(value.clone());
    }
}

fn set_repo_field_exec(r: &mut Repository, cur: &str, value: &String)
    ensures
        final(r)@ == set_repo_field(old(r)@, cur@, value@),
{
    if ends_with(cur, "/id") {
        r.id = Some(value.clone());
    } else if ends_with(cur, "/name") {
        r.name = Some(value.clone());
    } else if ends_with(cur, "/url") {
        r.url = value.clone();
    }
}

fn set_own_coordinate_exec(p: &mut Project, path: &Vec<String>, value: &String)
    ensures
        final(p)@ == set_own_coordinate(old(p)@, strings_view(path@), value@),
{
    if path.len() == 2 {
        assert(strings_view(path@)[1] == path@[1]@);
        if str_eq(path[1].as_str(), "groupId") {
            p.group_id = Some(value.clone());
        } else if str_eq(path[1].as_str(), "artifactId") {
            p.artifact_id = Some(value.clone());
        } else if str_eq(path[1].as_str(), "version") {
            p.version = Some(value.clone());
        } else if str_eq(path[1].as_str(), "packaging") {
            p.packaging = Some(value.clone());
        }
    }
}

fn end_fields(p: &mut Project, path: &Vec<String>, value: &String)
    ensures
        final(p)@ == pom_end_fields(old(p)@, strings_view(path@), value@),
{
    let ghost pv = strings_view(path@);
    let ghost p0 = p@;
    if is_in_properties(path) && path.len() > 2 {
        let key = path[path.len() - 1].clone();
        assert(key@ == pv.last());
        p.properties.insert(key, value.clone());
    }
    let ghost p1 = p@;
    if is_module_element(path) {
        p.modules.push(value.clone());
        assert(strings_view(p.modules@) =~= p1.modules.push(value@));
    }
    set_own_coordinate_exec(p, path, value);
}

fn end_element(st: &mut PomParser)
    ensures
        final(st)@ == pom_end(old(st)@),
{
    let ghost s = st@;
    let cur = join_with_slash(&st.path);
    let value = trim(st.text.as_str());
    end_fields(&mut st.project, &st.path, &value);
    if st.open_artifacts.len() > 0 {
        let (mut a, k) = st.open_artifacts.pop().unwrap();
        set_coordinate_exec(&mut a, cur.as_str(), &value);
        st.open_artifacts.push((a, k));
    }
    assert(st@.open_artifacts =~= (if s.open_artifacts.len() > 0 {
        let last = s.open_artifacts.last();
        s.open_artifacts.update(s.open_artifacts.len() - 1, (set_coordinate(last.0, cur@, value@), last.1))
    } else {
        s.open_artifacts
    }));
    if st.open_repos.len() > 0 {
        let mut r = st.open_repos.pop().unwrap();
        set_repo_field_exec(&mut r, cur.as_str(), &value);
        st.open_repos.push(r);
    }
    assert(st@.open_repos =~= (if s.open_repos.len() > 0 {
        s.open_repos.update(s.open_repos.len() - 1, set_repo_field(s.open_repos.last(), cur@, value@))
    } else {
        s.open_repos
    }));
    let ghost arts = st@.open_artifacts;
    let ghost repos = st@.open_repos;
    let ghost p3 = st@.project;
    if (is_dependency_element(&st.path) || is_plugin_element(&st.path)) && st.open_artifacts.len() > 0 {
        let done = st.open_artifacts.pop().unwrap();
        st.project.artifacts.push(done);
        assert(st@.open_artifacts =~= arts.drop_last());
        assert(st@.project.artifacts =~= p3.artifacts.push(arts.last()));
    }
    let ghost p4 = st@.project;
    if (is_repository_element(&st.path) || is_plugin_repository_element(&st.path)) && st.open_repos.len() > 0 {
        let r = st.open_repos.pop().unwrap();
        assert(st@.open_repos =~= repos.drop_last());
        if r.url.as_str().unicode_len() > 0 {
            st.project.repositories.push(r);
            assert(st@.project.repositories =~= p4.repositories.push(repos.last()));
        }
    }
    st.text = String::new();
    let ghost before_pop = st@;
    if st.path.len() > 0 {
        st.path.pop();
        assert(strings_view(st.path@) =~= before_pop.path.drop_last());
    }
    assert(st@.project == pom_end(s).project);
}

enum Outcome {
    Next,
    Done,
    Failed(String),
}

fn pom_step_exec(st: &mut PomParser, tok: &XmlToken) -> (o: Outcome)
    ensures
        match pom_step(old(st)@, tok@) {
            PomStep::Next(s2) => o is Next && final(st)@ == s2,
            PomStep::Done(p) => o is Done && final(st)@.project == p,
            PomStep::Failed(m) => o matches Outcome::Failed(msg) && msg@ == m,
        },
{
    match tok {
        XmlToken::Start { name, .. } => {
            let local = pom_local_name_exec(name);
            start_element(st, local);
            Outcome::Next
        },
        XmlToken::End { .. } => {
            end_element(st);
            Outcome::Next
        },
        XmlToken::Text { text } => match text {
            Some(t) => {
                st.text.append(t.as_str());
                Outcome::Next
            },
            None => {
                proof {
                    reveal_strlit("Failed to unescape XML text");
                }
                Outcome::Failed(String::from_str("Failed to unescape XML text"))
            },
        },
        XmlToken::Eof => Outcome::Done,
        XmlToken::Error { message } => {
            let mut m = String::from_str("XML parse error: ");
            m.append(message.as_str());
            Outcome::Failed(m)
        },
    }
}

/// Collects what a POM declares from its token list.
///
/// Fails with `Failed to unescape XML text` at a text node that cannot be decoded
/// and with `XML parse error: ` and the reader's description at a syntax error.
pub fn parse_pom_tokens(tokens: &Vec<XmlToken>) -> (r: Result<Project, String>)
    ensures
        match spec_parse_pom(token_views(tokens@)) {
            Ok(p) => r matches Ok(q) && q@ == p,
            Err(m) => r matches Err(e) && e@ == m,
        },
{
    let ghost views = token_views(tokens@);
    let mut st = PomParser {
        path: Vec::new(),
        text: String::new(),
        open_artifacts: Vec::new(),
        open_repos: Vec::new(),
        project: Project::default(),
    };
    assert(st@.path =~= pom_initial().path);
    assert(st@.open_artifacts =~= pom_initial().open_artifacts);
    assert(st@.open_repos =~= pom_initial().open_repos);
    assert(views.skip(0) =~= views);
    let mut i: usize = 0;
    while i < tokens.len()
        invariant
            views == token_views(tokens@),
            i <= tokens@.len(),
            pom_run(st@, views.skip(i as int)) == spec_parse_pom(views),
        decreases tokens@.len() - i,
    {
        let ghost s = st@;
        assert(views.skip(i as int)[0] == tokens@[i as int]@);
        assert(views.skip(i as int).drop_first() =~= views.skip(i as int + 1));
        let o = pom_step_exec(&mut st, &tokens[i]);
        match o {
            Outcome::Next => {},
            Outcome::Done => {
                return Ok(st.project);
            },
            Outcome::Failed(m) => {
                return Err(m);
            },
        }
        i = i + 1;
    }
    Ok(st.project)
}

/// Parses a POM document: what [`parse_pom_tokens`] makes of the document's
/// token list as `quick_xml` reads it.
pub fn parse_pom_str(xml: &str) -> (r: Result<Project, String>)
    ensures
        match spec_parse_pom(xml_tokens(xml@)) {
            Ok(p) => r matches Ok(q) && q@ == p,
            Err(m) => r matches Err(e) && e@ == m,
        },
{
    let tokens = read_tokens(xml);
    parse_pom_tokens(&tokens)
}

} // verus!
