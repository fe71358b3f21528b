//! The version-specifier classifier: decides, for one declared dependency of
//! one workspace, whether it points at another in-repo workspace (and which)
//! or at an external package.
//!
//! A specifier `protocol:rest` is split at the first `:`; a specifier with
//! no `:` is all version. The decision table, first match wins:
//! `workspace:` is always an internal reference (an explicit
//! `workspace:alias@*` / `@^` / `@~` redirects it to `alias`); `file:` and
//! `link:` are internal exactly when the path resolves inside the repository
//! root (and internal when it cannot be resolved at all — fail-open); any
//! other protocol but `npm:` is external; otherwise the remainder `*`, an
//! unparseable range or version (fail-open), or a satisfied range, is
//! internal. The reference resolves only if the target workspace is in the
//! table.

use vstd::prelude::*;

use crate::bytes::{find_byte, rfind_byte, spec_find, spec_rfind, sub_bytes, AT, CARET, COLON, STAR, TILDE};
use crate::manifest::PackageInfo;
use crate::name::{NameKey, PackageName};
use crate::paths::{path_within, resolve_rel, spec_resolve, spec_within, view_comps};
use crate::semver::{semver_check, semver_decision};
use crate::table::{spec_table_contains, spec_table_find, WorkspaceTable};
use vstd::slice::slice_to_vec;

verus! {

/// The bytes of `workspace`, the protocol of explicit in-repo references.
pub open spec fn proto_workspace() -> Seq<u8> {
    seq![119u8, 111u8, 114u8, 107u8, 115u8, 112u8, 97u8, 99u8, 101u8]
}

/// The bytes of `file`.
pub open spec fn proto_file() -> Seq<u8> {
    seq![102u8, 105u8, 108u8, 101u8]
}

/// The bytes of `link`.
pub open spec fn proto_link() -> Seq<u8> {
    seq![108u8, 105u8, 110u8, 107u8]
}

/// The bytes of `npm`.
pub open spec fn proto_npm() -> Seq<u8> {
    seq![110u8, 112u8, 109u8]
}

/// The protocol of a specifier: the text before the first `:`, if any.
pub open spec fn spec_protocol(s: Seq<u8>) -> Option<Seq<u8>> {
    match spec_find(s, COLON) {
        Some(i) => if 0 <= i < s.len() {
            Some(s.subrange(0, i))
        } else {
            None
        },
        None => None,
    }
}

/// The version remainder of a specifier: the text after the first `:`, or
/// the whole specifier when it has none.
pub open spec fn spec_remainder(s: Seq<u8>) -> Seq<u8> {
    match spec_find(s, COLON) {
        Some(i) => if 0 <= i < s.len() {
            s.subrange(i + 1, s.len() as int)
        } else {
            s
        },
        None => s,
    }
}

/// A dependency's version specifier, split into its optional protocol and
/// the version remainder.
pub struct DependencyVersion {
    pub protocol: Option<Vec<u8>>,
    pub version: Vec<u8>,
}

impl DependencyVersion {
    /// The protocol as a byte sequence, if any.
    pub open spec fn protocol_view(&self) -> Option<Seq<u8>> {
        match self.protocol {
            Some(p) => Some(p@),
            None => None,
        }
    }

    /// Splits a raw specifier at its first `:`.
    pub fn new(qualified_version: &[u8]) -> (r: DependencyVersion)
        ensures
            r.protocol_view() == spec_protocol(qualified_version@),
            r.version@ == spec_remainder(qualified_version@),
    {
        let n = qualified_version.len();
        match find_byte(qualified_version, COLON) {
            Some(i) => DependencyVersion {
                protocol: Some(sub_bytes(qualified_version, 0, i)),
                version: sub_bytes(qualified_version, i + 1, n),
            },
            None => DependencyVersion {
                protocol: None,
                version: slice_to_vec(qualified_version),
            },
        }
    }
}

/// Whether a protocol marks the specifier as an external reference on its
/// own: any protocol but `npm` (a bare specifier has no protocol and is
/// decided by semver matching instead).
pub open spec fn spec_is_external(protocol: Option<Seq<u8>>) -> bool {
    match protocol {
        Some(p) => p != proto_npm(),
        None => false,
    }
}

impl DependencyVersion {
    /// Whether the protocol alone marks this specifier external.
    pub fn is_external(&self) -> (r: bool)
        ensures
            r == spec_is_external(self.protocol_view()),
    {
        match &self.protocol {
            Some(p) => !eq_npm(p.as_slice()),
            None => false,
        }
    }
}

/// Byte comparison against `workspace`.
fn eq_workspace(p: &[u8]) -> (r: bool)
    ensures
        r == (p@ == proto_workspace()),
{
    let r = p.len() == 9 && p[0] == 119 && p[1] == 111 && p[2] == 114 && p[3] == 107 && p[4] == 115
        && p[5] == 112 && p[6] == 97 && p[7] == 99 && p[8] == 101;
    proof {
        if r {
            assert(p@ =~= proto_workspace());
        }
    }
    r
}

/// Byte comparison against `file`.
fn eq_file(p: &[u8]) -> (r: bool)
    ensures
        r == (p@ == proto_file()),
{
    let r = p.len() == 4 && p[0] == 102 && p[1] == 105 && p[2] == 108 && p[3] == 101;
    proof {
        if r {
            assert(p@ =~= proto_file());
        }
    }
    r
}

/// Byte comparison against `link`.
fn eq_link(p: &[u8]) -> (r: bool)
    ensures
        r == (p@ == proto_link()),
{
    let r = p.len() == 4 && p[0] == 108 && p[1] == 105 && p[2] == 110 && p[3] == 107;
    proof {
        if r {
            assert(p@ =~= proto_link());
        }
    }
    r
}

/// Byte comparison against `npm`.
fn eq_npm(p: &[u8]) -> (r: bool)
    ensures
        r == (p@ == proto_npm()),
{
    let r = p.len() == 3 && p[0] == 110 && p[1] == 112 && p[2] == 109;
    proof {
        if r {
            assert(p@ =~= proto_npm());
        }
    }
    r
}

/// Whether a split specifier matches a candidate workspace whose declared
/// version is `package_version`, for a workspace living at the absolute
/// directory `cwd` in a repository rooted at `root`. This is the decision
/// table of the classifier, after name resolution.
pub open spec fn spec_matches(
    protocol: Option<Seq<u8>>,
    version: Seq<u8>,
    package_version: Seq<u8>,
    cwd: Seq<Seq<u8>>,
    root: Seq<Seq<u8>>,
) -> bool {
    if protocol == Some(proto_workspace()) {
        true
    } else if protocol == Some(proto_file()) || protocol == Some(proto_link()) {
        match spec_resolve(cwd, version) {
            None => true,
            Some(p) => spec_within(root, p),
        }
    } else if spec_is_external(protocol) {
        false
    } else if version == seq![STAR] {
        true
    } else {
        match semver_decision(version, package_version) {
            None => true,
            Some(b) => b,
        }
    }
}

impl DependencyVersion {
    /// The classifier's decision table: does this specifier match the
    /// workspace with declared version `package_version`, declared from the
    /// absolute directory `cwd` of a repository rooted at `root`?
    pub fn matches_workspace_package(
        &self,
        package_version: &[u8],
        cwd: &Vec<Vec<u8>>,
        root: &Vec<Vec<u8>>,
    ) -> (r: bool)
        ensures
            r == spec_matches(
                self.protocol_view(),
                self.version@,
                package_version@,
                view_comps(cwd@),
                view_comps(root@),
            ),
    {
        match &self.protocol {
            Some(p) => {
                if eq_workspace(p.as_slice()) {
                    true
                } else if eq_file(p.as_slice()) || eq_link(p.as_slice()) {
                    match resolve_rel(cwd, self.version.as_slice()) {
                        None => true,
                        Some(dep_path) => path_within(root, &dep_path),
                    }
                } else if !eq_npm(p.as_slice()) {
                    false
                } else {
                    self.matches_version(package_version)
                }
            },
            None => self.matches_version(package_version),
        }
    }

    /// Semver stage of the table: `*`, an unparseable side (fail-open), or a
    /// satisfied range is a match.
    fn matches_version(&self, package_version: &[u8]) -> (r: bool)
        requires
            !spec_is_external(self.protocol_view()),
        ensures
            r == spec_matches(
                self.protocol_view(),
                self.version@,
                package_version@,
                Seq::<Seq<u8>>::empty(),
                Seq::<Seq<u8>>::empty(),
            ),
            r == spec_matches_version(self.version@, package_version@),
    {
        if self.version.len() == 1 && self.version[0] == STAR {
            proof {
                assert(self.version@ =~= seq![STAR]);
            }
            true
        } else {
            proof {
                assert(self.version@ != seq![STAR]);
            }
            match semver_check(self.version.as_slice(), package_version) {
                None => true,
                Some(b) => b,
            }
        }
    }
}

/// The semver stage alone: what a protocol-free specifier (or an `npm:` one)
/// decides for a workspace with the given declared version.
pub open spec fn spec_matches_version(version: Seq<u8>, package_version: Seq<u8>) -> bool {
    if version == seq![STAR] {
        true
    } else {
        match semver_decision(version, package_version) {
            None => true,
            Some(b) => b,
        }
    }
}

/// The explicit alias of a `workspace:<alias>@<range>` specifier with
/// `<range>` one of `*`, `^`, `~`, if the specifier has that form.
pub open spec fn spec_workspace_alias(version: Seq<u8>) -> Option<Seq<u8>> {
    if spec_protocol(version) == Some(proto_workspace()) {
        let rem = spec_remainder(version);
        match spec_rfind(rem, AT) {
            Some(j) => if 0 <= j && j + 2 == rem.len() && (rem[j + 1] == STAR || rem[j + 1] == CARET
                || rem[j + 1] == TILDE) {
                Some(rem.subrange(0, j))
            } else {
                None
            },
            None => None,
        }
    } else {
        None
    }
}

/// The workspace name a specifier points at: the explicit alias when the
/// specifier carries one, else the dependency's declared name.
pub open spec fn spec_target_name(name: Seq<u8>, version: Seq<u8>) -> Seq<u8> {
    match spec_workspace_alias(version) {
        Some(a) => a,
        None => name,
    }
}

/// The classifier's verdict for one declared dependency: the identity of the
/// in-repo workspace it resolves to, or `None` when it is external.
pub open spec fn spec_is_internal(
    entries: Seq<(PackageName, PackageInfo)>,
    root: Seq<Seq<u8>>,
    cwd: Seq<Seq<u8>>,
    name: Seq<u8>,
    version: Seq<u8>,
) -> Option<NameKey> {
    let target = NameKey::Other(spec_target_name(name, version));
    match spec_table_find(entries, target) {
        None => None,
        Some(j) => if spec_matches(
            spec_protocol(version),
            spec_remainder(version),
            entries[j].1.spec_version_or_default(),
            cwd,
            root,
        ) {
            Some(target)
        } else {
            None
        },
    }
}

/// Classification context: the repository root, the declaring workspace's
/// absolute directory, and the table of known workspaces.
pub struct DependencySplitter<'a> {
    pub repo_root: &'a Vec<Vec<u8>>,
    pub workspace_dir: &'a Vec<Vec<u8>>,
    pub workspaces: &'a WorkspaceTable,
}

impl<'a> DependencySplitter<'a> {
    /// Resolves one declared dependency to a workspace of the table, or to
    /// `None` when it is external.
    pub fn is_internal(&self, name: &[u8], version: &[u8]) -> (r: Option<PackageName>)
        ensures
            match r {
                Some(w) => spec_is_internal(
                    self.workspaces.entries@,
                    view_comps(self.repo_root@),
                    view_comps(self.workspace_dir@),
                    name@,
                    version@,
                ) == Some(w@),
                None => spec_is_internal(
                    self.workspaces.entries@,
                    view_comps(self.repo_root@),
                    view_comps(self.workspace_dir@),
                    name@,
                    version@,
                ) is None,
            },
{
        let dv = DependencyVersion::new(version);
        let target: Vec<u8> = match &dv.protocol {
            Some(p) => {
                if eq_workspace(p.as_slice()) {
                    let vn = dv.version.len();
                    match rfind_byte(dv.version.as_slice(), AT) {
                        Some(j) => {
                            if vn >= 2 && j == vn - 2 && (dv.version[vn - 1] == STAR
                                || dv.version[vn - 1] == CARET || dv.version[vn - 1] == TILDE) {
                                sub_bytes(dv.version.as_slice(), 0, j)
                            } else {
                                slice_to_vec(name)
                            }
                        },
                        None => slice_to_vec(name),
                    }
                } else {
                    proof {
                        assert(spec_workspace_alias(version@) is None);
                    }
                    slice_to_vec(name)
                }
            },
            None => {
                proof {
                    assert(spec_workspace_alias(version@) is None);
                }
                slice_to_vec(name)
            },
        };
        proof {
            assert(target@ == spec_target_name(name@, version@));
        }
        let workspace_name = PackageName::Other(target);
        match self.workspaces.get(&workspace_name) {
            None => None,
            Some(info) => {
                let matched = match &info.package_json.version {
                    Some(v) => {
                        let pv = slice_to_vec(v.as_slice());
                        dv.matches_workspace_package(
                            pv.as_slice(),
                            self.workspace_dir,
                            self.repo_root,
                        )
                    },
                    None => {
                        let empty: Vec<u8> = Vec::new();
                        dv.matches_workspace_package(
                            empty.as_slice(),
                            self.workspace_dir,
                            self.repo_root,
                        )
                    },
                };
                if matched {
                    Some(workspace_name)
                } else {
                    None
                }
            },
        }
    }
}

/// The identities of a list of package names.
pub open spec fn name_views(s: Seq<PackageName>) -> Seq<NameKey> {
    s.map_values(|n: PackageName| n@)
}

/// The views of a list of `(name, version specifier)` pairs.
pub open spec fn dep_views(s: Seq<(Vec<u8>, Vec<u8>)>) -> Seq<(Seq<u8>, Seq<u8>)> {
    s.map_values(|d: (Vec<u8>, Vec<u8>)| (d.0@, d.1@))
}

/// The absolute directory of a workspace: the repository root followed by
/// the manifest's directory (its path relative to the root, final component
/// dropped).
pub open spec fn spec_abs_dir(root: Seq<Seq<u8>>, rel_path: Seq<Seq<u8>>) -> Seq<Seq<u8>> {
    if rel_path.len() == 0 {
        root
    } else {
        root + rel_path.drop_last()
    }
}

/// The workspaces a dependency list resolves to, in first-hit order, without
/// repetition.
pub open spec fn spec_split_internals(
    entries: Seq<(PackageName, PackageInfo)>,
    root: Seq<Seq<u8>>,
    cwd: Seq<Seq<u8>>,
    deps: Seq<(Vec<u8>, Vec<u8>)>,
) -> Seq<NameKey>
    decreases deps.len(),
{
    if deps.len() == 0 {
        Seq::empty()
    } else {
        let rest = spec_split_internals(entries, root, cwd, deps.drop_last());
        match spec_is_internal(entries, root, cwd, deps.last().0@, deps.last().1@) {
            Some(k) => if rest.contains(k) {
                rest
            } else {
                rest.push(k)
            },
            None => rest,
        }
    }
}

/// The external subset of a dependency list, in declaration order.
pub open spec fn spec_split_externals(
    entries: Seq<(PackageName, PackageInfo)>,
    root: Seq<Seq<u8>>,
    cwd: Seq<Seq<u8>>,
    deps: Seq<(Vec<u8>, Vec<u8>)>,
) -> Seq<(Seq<u8>, Seq<u8>)>
    decreases deps.len(),
{
    if deps.len() == 0 {
        Seq::empty()
    } else {
        let rest = spec_split_externals(entries, root, cwd, deps.drop_last());
        if spec_is_internal(entries, root, cwd, deps.last().0@, deps.last().1@) is None {
            rest.push((deps.last().0@, deps.last().1@))
        } else {
            rest
        }
    }
}

/// Every workspace the splitter resolves to is in the table.
pub proof fn lemma_internals_in_table(
    entries: Seq<(PackageName, PackageInfo)>,
    root: Seq<Seq<u8>>,
    cwd: Seq<Seq<u8>>,
    deps: Seq<(Vec<u8>, Vec<u8>)>,
    k: NameKey,
)
    requires
        spec_split_internals(entries, root, cwd, deps).contains(k),
    ensures
        spec_table_contains(entries, k),
    decreases deps.len(),
{
    let whole = spec_split_internals(entries, root, cwd, deps);
    let rest = spec_split_internals(entries, root, cwd, deps.drop_last());
    if rest.contains(k) {
        lemma_internals_in_table(entries, root, cwd, deps.drop_last(), k);
    } else {
        match spec_is_internal(entries, root, cwd, deps.last().0@, deps.last().1@) {
            Some(t) => {
                assert(whole == rest.push(t));
                if k != t {
                    let w = choose|w: int| 0 <= w < whole.len() && whole[w] == k;
                    assert(rest[w] == k);
                }
            },
            None => {
                assert(whole == rest);
            },
        }
    }
}

/// Whether a list of names holds the given identity.
pub fn contains_name(v: &Vec<PackageName>, n: &PackageName) -> (r: bool)
    ensures
        r == name_views(v@).contains(n@),
{
    let mut i: usize = 0;
    while i < v.len()
        invariant
            0 <= i <= v@.len(),
            forall|p: int| 0 <= p < i ==> name_views(v@)[p] != n@,
        decreases v@.len() - i,
    {
        if v[i].key_eq(n) {
            proof {
                assert(name_views(v@)[i as int] == n@);
            }
            return true;
        }
        i += 1;
    }
    false
}

/// One workspace's dependencies, split: the workspaces it resolves to
/// in-repo, and the external `(name, version specifier)` remainder.
pub struct Dependencies {
    pub internal: Vec<PackageName>,
    pub external: Vec<(Vec<u8>, Vec<u8>)>,
}

impl Dependencies {
    /// Classifies every declared dependency of the workspace whose manifest
    /// lives at `workspace_json_path` (relative to the repository root).
    pub fn new(
        repo_root: &Vec<Vec<u8>>,
        workspace_json_path: &Vec<Vec<u8>>,
        workspaces: &WorkspaceTable,
        dependencies: &Vec<(Vec<u8>, Vec<u8>)>,
    ) -> (r: Dependencies)
        ensures
            name_views(r.internal@) == spec_split_internals(
                workspaces.entries@,
                view_comps(repo_root@),
                spec_abs_dir(view_comps(repo_root@), view_comps(workspace_json_path@)),
                dependencies@,
            ),
            dep_views(r.external@) == spec_split_externals(
                workspaces.entries@,
                view_comps(repo_root@),
                spec_abs_dir(view_comps(repo_root@), view_comps(workspace_json_path@)),
                dependencies@,
            ),
    {
        let ghost rootv = view_comps(repo_root@);
        let ghost cwdv = spec_abs_dir(view_comps(repo_root@), view_comps(workspace_json_path@));
        let mut workspace_dir: Vec<Vec<u8>> = Vec::new();
        let mut i: usize = 0;
        while i < repo_root.len()
            invariant
                0 <= i <= repo_root@.len(),
                view_comps(workspace_dir@) =~= view_comps(repo_root@).take(i as int),
            decreases repo_root@.len() - i,
        {
            let ghost before = view_comps(workspace_dir@);
            workspace_dir.push(slice_to_vec(repo_root[i].as_slice()));
            proof {
                assert(view_comps(workspace_dir@) =~= before.push(view_comps(repo_root@)[i as int]));
                assert(view_comps(workspace_dir@) =~= view_comps(repo_root@).take(i + 1));
            }
            i += 1;
        }
        proof {
            assert(view_comps(repo_root@).take(repo_root@.len() as int) =~= view_comps(
                repo_root@,
            ));
        }
        if workspace_json_path.len() > 0 {
            let mut j: usize = 0;
            let stop = workspace_json_path.len() - 1;
            while j < stop
                invariant
                    0 <= j <= stop,
                    stop == workspace_json_path@.len() - 1,
                    view_comps(workspace_dir@) =~= view_comps(repo_root@) + view_comps(
                        workspace_json_path@,
                    ).take(j as int),
                decreases stop - j,
            {
                let ghost before = view_comps(workspace_dir@);
                workspace_dir.push(slice_to_vec(workspace_json_path[j].as_slice()));
                proof {
                    assert(view_comps(workspace_dir@) =~= before.push(
                        view_comps(workspace_json_path@)[j as int],
                    ));
                    assert(view_comps(workspace_dir@) =~= view_comps(repo_root@) + view_comps(
                        workspace_json_path@,
                    ).take(j + 1));
                }
                j += 1;
            }
            proof {
                assert(view_comps(workspace_json_path@).take(stop as int) =~= view_comps(
                    workspace_json_path@,
                ).drop_last());
                assert(view_comps(workspace_dir@) =~= cwdv);
            }
        } else {
            proof {
                assert(view_comps(workspace_dir@) =~= cwdv);
            }
        }
        let splitter = DependencySplitter { repo_root, workspace_dir: &workspace_dir, workspaces };
        let mut internal: Vec<PackageName> = Vec::new();
        let mut external: Vec<(Vec<u8>, Vec<u8>)> = Vec::new();
        let mut d: usize = 0;
        while d < dependencies.len()
            invariant
                0 <= d <= dependencies@.len(),
                view_comps(workspace_dir@) == cwdv,
                rootv == view_comps(repo_root@),
                cwdv == spec_abs_dir(view_comps(repo_root@), view_comps(workspace_json_path@)),
                splitter.repo_root == repo_root,
                splitter.workspace_dir == &workspace_dir,
                splitter.workspaces == workspaces,
                name_views(internal@) == spec_split_internals(
                    workspaces.entries@,
                    rootv,
                    cwdv,
                    dependencies@.take(d as int),
                ),
                dep_views(external@) == spec_split_externals(
                    workspaces.entries@,
                    rootv,
                    cwdv,
                    dependencies@.take(d as int),
                ),
            decreases dependencies@.len() - d,
        {
            let ghost before_i = name_views(internal@);
            let ghost before_e = dep_views(external@);
            proof {
                assert(dependencies@.take(d + 1).drop_last() =~= dependencies@.take(d as int));
                assert(dependencies@.take(d + 1).last() == dependencies@[d as int]);
            }
            let dep = &dependencies[d];
            match splitter.is_internal(dep.0.as_slice(), dep.1.as_slice()) {
                Some(w) => {
                    if !contains_name(&internal, &w) {
                        internal.push(w);
                        proof {
                            assert(name_views(internal@) =~= before_i.push(
                                spec_is_internal(
                                    workspaces.entries@,
                                    rootv,
                                    cwdv,
                                    dependencies@[d as int].0@,
                                    dependencies@[d as int].1@,
                                )->0,
                            ));
                        }
                    }
                },
                None => {
                    external.push((slice_to_vec(dep.0.as_slice()), slice_to_vec(dep.1.as_slice())));
                    proof {
                        assert(dep_views(external@) =~= before_e.push(
                            (dependencies@[d as int].0@, dependencies@[d as int].1@),
                        ));
                    }
                },
            }
            d += 1;
        }
        proof {
            assert(dependencies@.take(dependencies@.len() as int) =~= dependencies@);
        }
        Dependencies { internal, external }
    }
}

} // verus!
