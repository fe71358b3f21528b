//! Per-package records: the parsed manifest handed in by the caller, and the
//! bookkeeping the graph build attaches to it.

use vstd::prelude::*;

verus! {

/// A parsed package manifest. The on-disk parser is the caller's concern;
/// this record holds what the graph build reads: the declared name, the
/// declared version, and the merged dependency declarations
/// (`(name, version specifier)` pairs), all as UTF-8 byte strings.
#[derive(Debug, Clone)]
pub struct PackageJson {
    pub name: Option<Vec<u8>>,
    pub version: Option<Vec<u8>>,
    pub dependencies: Vec<(Vec<u8>, Vec<u8>)>,
}

impl PackageJson {
    /// An empty manifest: no name, no version, no dependencies.
    pub fn empty() -> (r: PackageJson)
        ensures
            r.name is None,
            r.version is None,
            r.dependencies@.len() == 0,
    {
        PackageJson { name: None, version: None, dependencies: Vec::new() }
    }
}

/// One external package of a transitive closure, as reported by a lockfile.
#[derive(Debug, Clone)]
pub struct Package {
    pub key: Vec<u8>,
    pub version: Vec<u8>,
}

/// Per-workspace record of the graph. `package_json_path` is the manifest's
/// path relative to the repository root, as components (the last component is
/// the manifest file itself). The two `Option` fields are written once each
/// by the later build phases; `None` always means "not computed", never
/// "computed as empty".
#[derive(Debug, Clone)]
pub struct PackageInfo {
    pub package_json: PackageJson,
    pub package_json_path: Vec<Vec<u8>>,
    pub unresolved_external_dependencies: Option<Vec<(Vec<u8>, Vec<u8>)>>,
    pub transitive_dependencies: Option<Vec<Package>>,
}

impl PackageInfo {
    /// A fresh record for an ingested manifest: nothing computed yet.
    pub fn new(package_json: PackageJson, package_json_path: Vec<Vec<u8>>) -> (r: PackageInfo)
        ensures
            r.package_json == package_json,
            r.package_json_path == package_json_path,
            r.unresolved_external_dependencies is None,
            r.transitive_dependencies is None,
    {
        PackageInfo {
            package_json,
            package_json_path,
            unresolved_external_dependencies: None,
            transitive_dependencies: None,
        }
    }

    /// The workspace's declared version, with a missing version read as the
    /// empty string.
    pub open spec fn spec_version_or_default(&self) -> Seq<u8> {
        match self.package_json.version {
            Some(v) => v@,
            None => Seq::empty(),
        }
    }

    /// The directory of the manifest, as components relative to the
    /// repository root (the manifest path with its final component dropped).
    pub open spec fn spec_dir(&self) -> Seq<Seq<u8>> {
        if crate::paths::view_comps(self.package_json_path@).len() == 0 {
            Seq::empty()
        } else {
            crate::paths::view_comps(self.package_json_path@).drop_last()
        }
    }

    /// The unix rendering of the manifest's directory: its components joined
    /// with `/` (the empty string for the repository root itself).
    pub fn unix_dir_str(&self) -> (r: Vec<u8>)
        ensures
            r@ == crate::paths::join_slash(self.spec_dir()),
    {
        let mut dir: Vec<Vec<u8>> = Vec::new();
        if self.package_json_path.len() > 0 {
            let stop = self.package_json_path.len() - 1;
            let mut i: usize = 0;
            while i < stop
                invariant
                    0 <= i <= stop,
                    stop == self.package_json_path@.len() - 1,
                    crate::paths::view_comps(dir@) =~= crate::paths::view_comps(
                        self.package_json_path@,
                    ).take(i as int),
                decreases stop - i,
            {
                let ghost before = crate::paths::view_comps(dir@);
                dir.push(vstd::slice::slice_to_vec(self.package_json_path[i].as_slice()));
                proof {
                    assert(crate::paths::view_comps(dir@) =~= before.push(
                        crate::paths::view_comps(self.package_json_path@)[i as int],
                    ));
                }
                i += 1;
            }
            proof {
                assert(crate::paths::view_comps(dir@) =~= self.spec_dir());
            }
        } else {
            proof {
                assert(crate::paths::view_comps(dir@) =~= self.spec_dir());
            }
        }
        crate::paths::join_components(&dir)
    }
}

} // verus!
