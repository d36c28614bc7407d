//! Reading `package.json`: the fields that discovery and the package listings
//! use, taken from the file's text with `serde_json`.
//!
//! What `serde_json` makes of a text is named, not spelled out: a field's value
//! is a function of the text and the key alone.

use vstd::prelude::*;

use crate::npm::DirFacts;
use crate::pom::{opt_view, strings_view};

verus! {

/// The text is a JSON document (`serde_json::from_str::<Value>` succeeds).
pub uninterp spec fn json_valid(content: Seq<char>) -> bool;

/// The string value of the top-level field `key` of the JSON document `content`;
/// `None` where the text is no JSON document, the field is absent or it is no string.
pub uninterp spec fn json_top_string(content: Seq<char>, key: Seq<char>) -> Option<Seq<char>>;

/// The JSON document `content` has a top-level field `key` (of any value).
pub uninterp spec fn json_top_has(content: Seq<char>, key: Seq<char>) -> bool;

/// The keys of the object held by the top-level field `key` of the JSON document
/// `content`, in the order `serde_json`'s map yields them; empty where the text
/// is no JSON document, the field is absent or it is no object.
pub uninterp spec fn json_object_keys(content: Seq<char>, key: Seq<char>) -> Seq<Seq<char>>;

/// The string at `outer`.`inner` of the JSON document `content` (`None` where
/// the text is no JSON document or that value is missing or no string).
pub uninterp spec fn json_nested_string(content: Seq<char>, outer: Seq<char>, inner: Seq<char>) -> Option<Seq<char>>;

/// `serde_json::from_str::<serde_json::Value>`, then indexing by `outer` and
/// `inner` and `as_str`.
#[verifier::external_body]
fn nested_string(content: &str, outer: &str, inner: &str) -> (r: Option<String>)
    ensures
        opt_view(r) == json_nested_string(content@, outer@, inner@),
{
    let v = serde_json::from_str::<serde_json::Value>(content).ok()?;
    v[outer][inner].as_str().map(String::from)
}

/// `serde_json::from_str::<serde_json::Value>`: whether the text parses.
#[verifier::external_body]
fn parses(content: &str) -> (b: bool)
    ensures
        b == json_valid(content@),
{
    serde_json::from_str::<serde_json::Value>(content).is_ok()
}

/// `serde_json::from_str::<serde_json::Value>`, then `get(key)` and `as_str`: the
/// string value of a top-level field.
#[verifier::external_body]
fn top_string(content: &str, key: &str) -> (r: Option<String>)
    ensures
        opt_view(r) == json_top_string(content@, key@),
{
    serde_json::from_str::<serde_json::Value>(content).ok()?.get(key)?.as_str().map(String::from)
}

/// `serde_json::from_str::<serde_json::Value>`, then `get(key).is_some()`.
#[verifier::external_body]
fn top_has(content: &str, key: &str) -> (b: bool)
    ensures
        b == json_top_has(content@, key@),
{
    match serde_json::from_str::<serde_json::Value>(content) {
        Ok(v) => v.get(key).is_some(),
        Err(_) => false,
    }
}

/// `serde_json::from_str::<serde_json::Value>`, then `get(key)`, `as_object` and
/// its keys.
#[verifier::external_body]
fn object_keys(content: &str, key: &str) -> (r: Vec<String>)
    ensures
        strings_view(r@) == json_object_keys(content@, key@),
{
    let v = match serde_json::from_str::<serde_json::Value>(content) {
        Ok(v) => v,
        Err(_) => return Vec::new(),
    };
    match v.get(key).and_then(serde_json::Value::as_object) {
        Some(o) => o.keys().cloned().collect(),
        None => Vec::new(),
    }
}

/// The fields of `package.json` that discovery decides on.
#[derive(Debug, Clone)]
pub struct PackageJsonFacts {
    /// The `packageManager` field, where it is a string.
    pub pm_field: Option<String>,
    /// The `name` field, where it is a string.
    pub name: Option<String>,
    /// There is a `workspaces` field.
    pub has_workspaces: bool,
}

/// Reads the `packageManager`, `name` and `workspaces` fields of a
/// `package.json` text; a text that is no JSON document has none of them.
pub fn package_json_facts(content: &str) -> (f: PackageJsonFacts)
    ensures
        opt_view(f.pm_field) == json_top_string(content@, "packageManager"@),
        opt_view(f.name) == json_top_string(content@, "name"@),
        f.has_workspaces == json_top_has(content@, "workspaces"@),
{
    PackageJsonFacts {
        pm_field: top_string(content, "packageManager"),
        name: top_string(content, "name"),
        has_workspaces: top_has(content, "workspaces"),
    }
}

/// What discovery knows of a directory: which lock and workspace files it
/// holds (as the caller found them) and the fields of its `package.json` where
/// that could be read (none where it could not).
pub fn dir_facts_of(
    path: String,
    has_pnpm_lock: bool,
    has_npm_lock: bool,
    has_yarn_lock: bool,
    has_bun_lock: bool,
    has_pnpm_workspace: bool,
    package_json: Option<&str>,
) -> (d: DirFacts)
    ensures
        d.path == path,
        d.has_pnpm_lock == has_pnpm_lock,
        d.has_npm_lock == has_npm_lock,
        d.has_yarn_lock == has_yarn_lock,
        d.has_bun_lock == has_bun_lock,
        d.has_pnpm_workspace == has_pnpm_workspace,
        match package_json {
            Some(c) => {
                &&& opt_view(d.pm_field) == json_top_string(c@, "packageManager"@)
                &&& opt_view(d.name) == json_top_string(c@, "name"@)
                &&& d.has_workspaces_field == json_top_has(c@, "workspaces"@)
            },
            None => d.pm_field is None && d.name is None && !d.has_workspaces_field,
        },
{
    let (pm_field, name, has_workspaces_field) = match package_json {
        Some(c) => {
            let f = package_json_facts(c);
            (f.pm_field, f.name, f.has_workspaces)
        },
        None => (None, None, false),
    };
    DirFacts {
        path,
        has_pnpm_lock,
        has_npm_lock,
        has_yarn_lock,
        has_bun_lock,
        pm_field,
        has_pnpm_workspace,
        has_workspaces_field,
        name,
    }
}

/// The names under `devDependencies` in a `package.json` text (none where the
/// text is no JSON document or has no such object).
pub fn dev_dependency_names(content: &str) -> (r: Vec<String>)
    ensures
        strings_view(r@) == json_object_keys(content@, "devDependencies"@),
{
    object_keys(content, "devDependencies")
}

/// The `version` field of an installed package's `package.json` text.
pub fn installed_version_of(content: &str) -> (r: Option<String>)
    ensures
        opt_view(r) == json_top_string(content@, "version"@),
{
    top_string(content, "version")
}

/// The names under `dependencies` and under `devDependencies` of a
/// `package.json` text; `None` where the text is no JSON document.
pub fn dependency_sections(content: &str) -> (r: Option<(Vec<String>, Vec<String>)>)
    ensures
        match r {
            Some((deps, dev)) => json_valid(content@) && strings_view(deps@) == json_object_keys(content@, "dependencies"@)
                && strings_view(dev@) == json_object_keys(content@, "devDependencies"@),
            None => !json_valid(content@),
        },
{
    if !parses(content) {
        return None;
    }
    Some((object_keys(content, "dependencies"), object_keys(content, "devDependencies")))
}

/// The version the npm registry tags `latest` in a package document: its
/// `dist-tags.latest` string, where it has one; `None` where the text is no
/// JSON document.
pub fn registry_latest(content: &str) -> (r: Option<Option<String>>)
    ensures
        match r {
            Some(l) => json_valid(content@) && opt_view(l) == json_nested_string(content@, "dist-tags"@, "latest"@),
            None => !json_valid(content@),
        },
{
    if !parses(content) {
        return None;
    }
    Some(nested_string(content, "dist-tags", "latest"))
}

} // verus!
