//! Decoded package manifests.
//!
//! A manifest is the single structured metadata file at the top of a package
//! directory. The fields the inspector shows are all optional; the declared
//! dependency count is the sum of the sizes of the four dependency groups.
//! Reading and decoding the file happens outside the library; the decoded
//! record is handed in as plain values.

use vstd::prelude::*;

verus! {

/// The `repository` object of a manifest: a kind tag and a URL, each
/// optional.
pub struct Repository {
    pub repo_type: Option<String>,
    pub url: Option<String>,
}

/// The view of an optional string.
pub open spec fn opt_str_view(o: Option<String>) -> Option<Seq<char>> {
    match o {
        Some(s) => Some(s@),
        None => None,
    }
}

/// Copies an optional string.
pub fn clone_opt_string(o: &Option<String>) -> (r: Option<String>)
    ensures
        r == *o,
{
    match o {
        Some(s) => Some(s.clone()),
        None => None,
    }
}

impl Repository {
    /// The repository URL, when one is present; the kind tag is discarded.
    pub fn to_string(&self) -> (r: Option<String>)
        ensures
            r == self.url,
    {
        match &self.url {
            Some(u) => Some(u.clone()),
            None => None,
        }
    }
}

/// A decoded manifest. Absent fields stay absent: an empty string present in
/// the file is distinguishable from a field that was not there.
pub struct PackageJson {
    pub name: Option<String>,
    pub version: Option<String>,
    pub description: Option<String>,
    pub author: Option<String>,
    pub license: Option<String>,
    pub homepage: Option<String>,
    pub repository: Option<Repository>,
    pub dependencies: Option<Vec<(String, String)>>,
    pub dev_dependencies: Option<Vec<(String, String)>>,
    pub peer_dependencies: Option<Vec<(String, String)>>,
    pub optional_dependencies: Option<Vec<(String, String)>>,
    pub publish_config: Option<Vec<(String, String)>>,
}

/// Size of one dependency group; an absent group contributes zero.
pub open spec fn group_len(g: Option<Vec<(String, String)>>) -> nat {
    match g {
        Some(v) => v@.len(),
        None => 0,
    }
}

/// The declared dependency count: runtime, development, peer and optional
/// groups summed.
pub open spec fn spec_dependency_count(m: PackageJson) -> nat {
    group_len(m.dependencies) + group_len(m.dev_dependencies) + group_len(m.peer_dependencies)
        + group_len(m.optional_dependencies)
}

/// The hoisted repository URL of a manifest, when there is one.
pub open spec fn spec_repo_url(m: PackageJson) -> Option<Seq<char>> {
    match m.repository {
        Some(r) => opt_str_view(r.url),
        None => None,
    }
}

/// `n` held below the largest `usize` value.
pub open spec fn clamp_usize(n: nat) -> nat {
    if n <= usize::MAX {
        n
    } else {
        usize::MAX as nat
    }
}

fn sat_add_usize(a: usize, b: usize) -> (r: usize)
    ensures
        r == clamp_usize((a + b) as nat),
{
    if a <= usize::MAX - b {
        a + b
    } else {
        usize::MAX
    }
}

fn group_size(g: &Option<Vec<(String, String)>>) -> (r: usize)
    ensures
        r == group_len(*g),
{
    match g {
        Some(v) => v.len(),
        None => 0,
    }
}

impl PackageJson {
    /// The declared dependency count, summed over the four groups and
    /// stopping at the largest `usize` value.
    pub fn dependency_count(&self) -> (r: usize)
        ensures
            r == clamp_usize(spec_dependency_count(*self)),
    {
        let a = group_size(&self.dependencies);
        let b = group_size(&self.dev_dependencies);
        let c = group_size(&self.peer_dependencies);
        let d = group_size(&self.optional_dependencies);
        sat_add_usize(sat_add_usize(sat_add_usize(a, b), c), d)
    }

    /// The hoisted repository URL, as `spec_repo_url` describes.
    pub fn repository_url(&self) -> (r: Option<String>)
        ensures
            opt_str_view(r) == spec_repo_url(*self),
    {
        match &self.repository {
            Some(rep) => rep.to_string(),
            None => None,
        }
    }
}

} // verus!
