//! Where the registries are, and how hard to press them.

use vstd::prelude::*;

use crate::discovery::trim_trailing_slashes;

verus! {

/// Maven Central, where `maven-metadata.xml` is fetched first.
pub const MAVEN_CENTRAL_URL: &'static str = "https://repo1.maven.org/maven2";

/// The Node.js distribution index, listing all releases.
pub const NODEJS_DIST_URL: &'static str = "https://nodejs.org/dist/index.json";

/// The npm registry, for package metadata.
pub const NPM_REGISTRY_URL: &'static str = "https://registry.npmjs.org";

/// The OSV.dev API.
pub const OSV_API_URL: &'static str = "https://api.osv.dev";

/// How many HTTP requests and subprocesses run at once.
pub const MAX_CONCURRENT_REQUESTS: usize = 10;

/// The HTTP request timeout, in seconds.
pub const HTTP_TIMEOUT_SECS: u64 = 30;

/// How many OSV queries go in one batch request (the API takes up to 1000).
pub const BATCH_CHUNK_SIZE: usize = 500;

/// `s` with every `.` turned into `/`.
pub open spec fn dots_to_slashes(s: Seq<char>) -> Seq<char> {
    s.map_values(|c: char| if c == '.' { '/' } else { c })
}

/// The address of an artifact's `maven-metadata.xml` in the repository at `base`.
pub open spec fn spec_metadata_url(base: Seq<char>, group_id: Seq<char>, artifact_id: Seq<char>) -> Seq<char> {
    trim_trailing_slashes(base) + "/"@ + dots_to_slashes(group_id) + "/"@ + artifact_id + "/maven-metadata.xml"@
}

/// The address of an artifact's `maven-metadata.xml`: the repository URL
/// without trailing slashes, the group with its dots as slashes, the artifact.
pub fn metadata_url(base: &str, group_id: &str, artifact_id: &str) -> (s: String)
    ensures
        s@ == spec_metadata_url(base@, group_id@, artifact_id@),
{
    let g = crate::text::chars_of(group_id);
    let mut path: Vec<char> = Vec::new();
    let mut i: usize = 0;
    while i < g.len()
        invariant
            g@ == group_id@,
            i <= g@.len(),
            path@ == dots_to_slashes(g@.subrange(0, i as int)),
        decreases g@.len() - i,
    {
        let c = g[i];
        path.push(if c == '.' { '/' } else { c });
        i = i + 1;
        assert(path@ =~= dots_to_slashes(g@.subrange(0, i as int)));
    }
    assert(g@.subrange(0, g@.len() as int) =~= g@);
    let mut s = crate::discovery::url_key(base);
    s.append("/");
    let p = crate::text::string_from_chars(path.as_slice());
    s.append(p.as_str());
    s.append("/");
    s.append(artifact_id);
    s.append("/maven-metadata.xml");
    s
}

/// The npm registry address of a package's metadata.
pub fn npm_package_url(package: &str) -> (s: String)
    ensures
        s@ == NPM_REGISTRY_URL@ + "/"@ + package@,
{
    let mut s = String::from_str(NPM_REGISTRY_URL);
    s.append("/");
    s.append(package);
    s
}

} // verus!
