//! The staged graph build. Each phase is its own type and each transition a
//! function that consumes the previous phase, so a build can only run in
//! order: ingest manifests, resolve edges and the lockfile, then finalize.
//! The caller performs discovery, lockfile loading and closure computation
//! between the phases and hands their results in as plain values.

use vstd::prelude::*;

use crate::bytes::bytes_eq;
use crate::classify::{
    dep_views, name_views, spec_abs_dir, spec_split_externals, spec_split_internals, Dependencies,
};
use crate::digraph::{graph_add_edge, graph_add_node, graph_edges, graph_new, graph_nodes};
use crate::graph::{edge_from, edge_in, nodes_of, PackageGraph, PackageManager};
use crate::manifest::{Package, PackageInfo, PackageJson};
use crate::name::{NameKey, NodeKey, PackageName, PackageNode};
use crate::paths::{join_components, join_slash, view_comps};
use crate::table::{
    lemma_spec_table_find, spec_table_contains, spec_table_find, WorkspaceTable,
};
use petgraph::graph::Graph;
use petgraph::Directed;
use vstd::slice::slice_to_vec;

verus! {

/// A fatal construction error. A manifest without a name is not one: such a
/// manifest is skipped during ingestion.
#[derive(Debug)]
pub enum Error {
    /// Two manifests declare the same workspace name; both paths are named.
    DuplicateWorkspace { name: Vec<u8>, path: Vec<u8>, existing_path: Vec<u8> },
}

/// The bytes of `package.json`, the root manifest's path.
pub open spec fn root_manifest_file() -> Seq<u8> {
    seq![112u8, 97u8, 99u8, 107u8, 97u8, 103u8, 101u8, 46u8, 106u8, 115u8, 111u8, 110u8]
}

/// The root manifest's path relative to the repository root.
fn root_manifest_path() -> (r: Vec<Vec<u8>>)
    ensures
        view_comps(r@) == seq![root_manifest_file()],
{
    let mut f: Vec<u8> = Vec::new();
    f.push(112);
    f.push(97);
    f.push(99);
    f.push(107);
    f.push(97);
    f.push(103);
    f.push(101);
    f.push(46);
    f.push(106);
    f.push(115);
    f.push(111);
    f.push(110);
    proof {
        assert(f@ =~= root_manifest_file());
    }
    let mut r: Vec<Vec<u8>> = Vec::new();
    r.push(f);
    proof {
        assert(view_comps(r@) =~= seq![root_manifest_file()]);
    }
    r
}

/// The manifests a build ingests: the pre-supplied set when one was given,
/// else what discovery produced.
pub open spec fn spec_manifests(
    supplied: Option<Vec<(Vec<Vec<u8>>, PackageJson)>>,
    discovered: Seq<(Vec<Vec<u8>>, PackageJson)>,
) -> Seq<(Vec<Vec<u8>>, PackageJson)> {
    match supplied {
        Some(v) => v@,
        None => discovered,
    }
}

/// Two manifests of the list declare the same name.
pub open spec fn spec_has_dup(ms: Seq<(Vec<Vec<u8>>, PackageJson)>) -> bool {
    exists|i: int, j: int|
        0 <= i < j < ms.len() && ms[i].1.name is Some && ms[j].1.name is Some
            && ms[i].1.name->0@ == ms[j].1.name->0@
}

/// The named manifests of the list, in order: exactly those ingestion keeps.
pub open spec fn spec_named(ms: Seq<(Vec<Vec<u8>>, PackageJson)>) -> Seq<(Vec<Vec<u8>>, PackageJson)>
    decreases ms.len(),
{
    if ms.len() == 0 {
        Seq::empty()
    } else {
        let rest = spec_named(ms.drop_last());
        if ms.last().1.name is Some {
            rest.push(ms.last())
        } else {
            rest
        }
    }
}

/// What a successful ingestion leaves in the table: the root workspace
/// first, then exactly the named manifests in their own order, each entry
/// carrying its manifest and path, with nothing computed yet; and every
/// named manifest's identity present.
pub open spec fn spec_ingested(
    ms: Seq<(Vec<Vec<u8>>, PackageJson)>,
    entries: Seq<(PackageName, PackageInfo)>,
    root_json: PackageJson,
) -> bool {
    &&& entries.len() >= 1
    &&& entries[0].0@ == NameKey::Root
    &&& entries[0].1.package_json == root_json
    &&& view_comps(entries[0].1.package_json_path@) == seq![root_manifest_file()]
    &&& forall|e: int|
        0 <= e < entries.len() ==> (#[trigger] entries[e]).1.unresolved_external_dependencies
            is None && entries[e].1.transitive_dependencies is None
    &&& entries.len() == 1 + spec_named(ms).len()
    &&& forall|e: int|
        1 <= e < entries.len() ==> (#[trigger] entries[e]).0@ == NameKey::Other(
            spec_named(ms)[e - 1].1.name->0@,
        ) && entries[e].1.package_json == spec_named(ms)[e - 1].1
            && entries[e].1.package_json_path == spec_named(ms)[e - 1].0
    &&& forall|m: int|
        0 <= m < ms.len() && (#[trigger] ms[m]).1.name is Some ==> spec_table_contains(
            entries,
            NameKey::Other(ms[m].1.name->0@),
        )
}

/// The build's starting point: what the caller supplies before any phase
/// runs.
pub struct PackageGraphBuilder<L> {
    pub repo_root: Vec<Vec<u8>>,
    pub root_package_json: PackageJson,
    pub is_single_package: bool,
    pub package_jsons: Option<Vec<(Vec<Vec<u8>>, PackageJson)>>,
    pub lockfile: Option<L>,
}

/// The phase after manifest ingestion: all vertices exist, the table is
/// full, and the only edge ties the root workspace to the root anchor.
pub struct ManifestsIngested<L> {
    pub repo_root: Vec<Vec<u8>>,
    pub single: bool,
    pub workspaces: WorkspaceTable,
    pub graph: Graph<PackageNode, (), Directed, usize>,
    pub lockfile: Option<L>,
}

impl<L> ManifestsIngested<L> {
    pub open spec fn wf(&self) -> bool {
        &&& self.workspaces.wf()
        &&& self.workspaces.entries@.len() >= 1
        &&& self.workspaces.entries@[0].0@ == NameKey::Root
        &&& graph_nodes(self.graph) == nodes_of(self.workspaces.entries@)
        &&& graph_edges(self.graph) == seq![(1usize, 0usize)]
        &&& forall|e: int|
            0 <= e < self.workspaces.entries@.len() ==> (
            #[trigger] self.workspaces.entries@[e]).1.unresolved_external_dependencies is None
                && self.workspaces.entries@[e].1.transitive_dependencies is None
    }
}

impl<L> PackageGraphBuilder<L> {
    /// A builder for the repository rooted at `repo_root` (absolute path
    /// components) whose root manifest is `root_package_json`.
    pub fn new(repo_root: Vec<Vec<u8>>, root_package_json: PackageJson) -> (r: Self)
        ensures
            r.repo_root == repo_root,
            r.root_package_json == root_package_json,
            !r.is_single_package,
            r.package_jsons is None,
            r.lockfile is None,
    {
        PackageGraphBuilder {
            repo_root,
            root_package_json,
            is_single_package: false,
            package_jsons: None,
            lockfile: None,
        }
    }

    /// Marks the repository as a single package rather than a monorepo.
    pub fn with_single_package_mode(self, is_single: bool) -> (r: Self)
        ensures
            r.is_single_package == is_single,
            r.repo_root == self.repo_root,
            r.root_package_json == self.root_package_json,
            r.package_jsons == self.package_jsons,
            r.lockfile == self.lockfile,
    {
        PackageGraphBuilder { is_single_package: is_single, ..self }
    }

    /// Pre-supplies the workspace manifests, keyed by their paths relative
    /// to the repository root; discovery is then not consulted.
    pub fn with_package_jsons(self, package_jsons: Option<Vec<(Vec<Vec<u8>>, PackageJson)>>) -> (r:
        Self)
        ensures
            r.package_jsons == package_jsons,
            r.repo_root == self.repo_root,
            r.root_package_json == self.root_package_json,
            r.is_single_package == self.is_single_package,
            r.lockfile == self.lockfile,
    {
        PackageGraphBuilder { package_jsons, ..self }
    }

    /// Pre-supplies a lockfile handle; the loader is then not consulted.
    pub fn with_lockfile(self, lockfile: Option<L>) -> (r: Self)
        ensures
            r.lockfile == lockfile,
            r.repo_root == self.repo_root,
            r.root_package_json == self.root_package_json,
            r.is_single_package == self.is_single_package,
            r.package_jsons == self.package_jsons,
    {
        PackageGraphBuilder { lockfile, ..self }
    }

    /// Ingests the manifests: the root workspace unconditionally, then every
    /// named manifest (pre-supplied if any, else `discovered`). A manifest
    /// without a name is skipped; a name declared by two manifests is the
    /// fatal duplicate-workspace error, naming both paths.
    pub fn parse_package_jsons(self, discovered: Vec<(Vec<Vec<u8>>, PackageJson)>) -> (r: Result<
        ManifestsIngested<L>,
        Error,
    >)
        ensures
            match r {
                Ok(st) => {
                    &&& st.wf()
                    &&& st.single == self.is_single_package
                    &&& st.lockfile == self.lockfile
                    &&& st.repo_root == self.repo_root
                    &&& !spec_has_dup(spec_manifests(self.package_jsons, discovered@))
                    &&& spec_ingested(
                        spec_manifests(self.package_jsons, discovered@),
                        st.workspaces.entries@,
                        self.root_package_json,
                    )
                },
                Err(e) => spec_has_dup(spec_manifests(self.package_jsons, discovered@))
                    && e is DuplicateWorkspace,
            },
    {
        let ghost ms = spec_manifests(self.package_jsons, discovered@);
        let PackageGraphBuilder {
            repo_root,
            root_package_json,
            is_single_package,
            package_jsons,
            lockfile,
        } = self;
        let manifests: Vec<(Vec<Vec<u8>>, PackageJson)> = match package_jsons {
            Some(v) => v,
            None => discovered,
        };
        let mut workspaces = WorkspaceTable::new();
        let mut graph = graph_new();
        let root_idx = graph_add_node(&mut graph, PackageNode::Root);
        let root_ws_idx = graph_add_node(&mut graph, PackageNode::Workspace(PackageName::Root));
        graph_add_edge(&mut graph, root_ws_idx, root_idx);
        workspaces.push_new(
            PackageName::Root,
            PackageInfo::new(root_package_json, root_manifest_path()),
        );
        let ghost root_json = workspaces.entries@[0].1.package_json;
        proof {
            assert(graph_nodes(graph) =~= nodes_of(workspaces.entries@));
            assert(graph_edges(graph) =~= seq![(1usize, 0usize)]);
        }
        let total_count = manifests.len();
        let mut rest = manifests;
        let mut done: usize = 0;
        while rest.len() > 0
            invariant
                ms == spec_manifests(self.package_jsons, discovered@),
                workspaces.wf(),
                0 <= done,
                ms.len() == total_count,
                done + rest@.len() == ms.len(),
                rest@ =~= ms.skip(done as int),
                workspaces.entries@.len() >= 1,
                workspaces.entries@[0].0@ == NameKey::Root,
                workspaces.entries@[0].1.package_json == root_json,
                view_comps(workspaces.entries@[0].1.package_json_path@) == seq![
                    root_manifest_file(),
                ],
                forall|e: int|
                    0 <= e < workspaces.entries@.len() ==> (
                    #[trigger] workspaces.entries@[e]).1.unresolved_external_dependencies is None
                        && workspaces.entries@[e].1.transitive_dependencies is None,
                forall|e: int|
                    1 <= e < workspaces.entries@.len() ==> exists|m: int|
                        0 <= m < done && (#[trigger] ms[m]).1.name is Some && (
                        #[trigger] workspaces.entries@[e]).0@ == NameKey::Other(ms[m].1.name->0@)
                            && workspaces.entries@[e].1.package_json == ms[m].1
                            && workspaces.entries@[e].1.package_json_path == ms[m].0,
                workspaces.entries@.len() == 1 + spec_named(ms.take(done as int)).len(),
                forall|e: int|
                    1 <= e < workspaces.entries@.len() ==> (#[trigger] workspaces.entries@[e]).0@
                        == NameKey::Other(spec_named(ms.take(done as int))[e - 1].1.name->0@)
                        && workspaces.entries@[e].1.package_json == spec_named(
                        ms.take(done as int),
                    )[e - 1].1 && workspaces.entries@[e].1.package_json_path == spec_named(
                        ms.take(done as int),
                    )[e - 1].0,
                forall|m: int|
                    0 <= m < done && (#[trigger] ms[m]).1.name is Some ==> spec_table_contains(
                        workspaces.entries@,
                        NameKey::Other(ms[m].1.name->0@),
                    ),
                forall|m1: int, m2: int|
                    0 <= m1 < m2 < done && (#[trigger] ms[m1]).1.name is Some && (
                    #[trigger] ms[m2]).1.name is Some ==> ms[m1].1.name->0@ != ms[m2].1.name->0@,
                graph_nodes(graph) == nodes_of(workspaces.entries@),
                graph_edges(graph) == seq![(1usize, 0usize)],
            decreases rest@.len(),
        {
            proof {
                assert(ms.skip(done as int)[0] == ms[done as int]);
                assert(ms.skip(done as int).drop_first() =~= ms.skip(done + 1));
                assert(ms.take(done + 1).drop_last() =~= ms.take(done as int));
                assert(ms.take(done + 1).last() == ms[done as int]);
            }
            let (path, json) = rest.remove(0);
            let name_bytes: Option<Vec<u8>> = match &json.name {
                Some(n) => Some(slice_to_vec(n.as_slice())),
                None => None,
            };
            match name_bytes {
                None => {
                    // Leniency: a nameless manifest is skipped, not fatal.
                },
                Some(n) => {
                    let name = PackageName::Other(n);
                    match workspaces.find(&name) {
                        Some(existing) => {
                            proof {
                                lemma_spec_table_find(workspaces.entries@, name@);
                                assert(existing >= 1) by {
                                    assert(workspaces.entries@[0].0@ == NameKey::Root);
                                }
                                let m = choose|m: int|
                                    0 <= m < done && (#[trigger] ms[m]).1.name is Some && (
                                    workspaces.entries@[existing as int]).0@ == NameKey::Other(
                                        ms[m].1.name->0@,
                                    ) && workspaces.entries@[existing as int].1.package_json
                                        == ms[m].1
                                        && workspaces.entries@[existing as int].1.package_json_path
                                        == ms[m].0;
                                assert(ms[m].1.name->0@ == ms[done as int].1.name->0@);
                                assert(spec_has_dup(ms));
                            }
                            let existing_path = join_components(
                                &workspaces.entries[existing].1.package_json_path,
                            );
                            let name_bytes_back = match name {
                                PackageName::Other(b) => b,
                                PackageName::Root => Vec::new(),
                            };
                            return Err(Error::DuplicateWorkspace {
                                name: name_bytes_back,
                                path: join_components(&path),
                                existing_path,
                            });
                        },
                        None => {
                            let node_name = PackageName::Other(
                                match &name {
                                    PackageName::Other(b) => slice_to_vec(b.as_slice()),
                                    PackageName::Root => Vec::new(),
                                },
                            );
                            let ghost before = workspaces.entries@;
                            workspaces.push_new(name, PackageInfo::new(json, path));
                            graph_add_node(&mut graph, PackageNode::Workspace(node_name));
                            proof {
                                assert(graph_nodes(graph) =~= nodes_of(workspaces.entries@)) by {
                                    assert(nodes_of(workspaces.entries@) =~= nodes_of(before).push(
                                        NodeKey::Workspace(NameKey::Other(ms[done as int].1.name->0@)),
                                    ));
                                }
                                assert forall|m: int|
                                    0 <= m < done + 1 && (#[trigger] ms[m]).1.name
                                        is Some implies spec_table_contains(
                                    workspaces.entries@,
                                    NameKey::Other(ms[m].1.name->0@),
                                ) by {
                                    lemma_spec_table_find(before, NameKey::Other(ms[m].1.name->0@));
                                    lemma_spec_table_find(
                                        workspaces.entries@,
                                        NameKey::Other(ms[m].1.name->0@),
                                    );
                                    if m < done {
                                        let j = choose|j: int|
                                            0 <= j < before.len() && before[j].0@ == NameKey::Other(
                                                ms[m].1.name->0@,
                                            );
                                        assert(workspaces.entries@[j].0@ == NameKey::Other(
                                            ms[m].1.name->0@,
                                        ));
                                    } else {
                                        assert(workspaces.entries@[before.len() as int].0@
                                            == NameKey::Other(ms[m].1.name->0@));
                                    }
                                }
                            }
                        },
                    }
                },
            }
            done += 1;
        }
        proof {
            assert(done == ms.len());
            assert(ms.take(done as int) =~= ms);
            assert forall|i: int, j: int|
                0 <= i < j < ms.len() && (#[trigger] ms[i]).1.name is Some && (
                #[trigger] ms[j]).1.name is Some implies ms[i].1.name->0@ != ms[j].1.name->0@ by {}
        }
        Ok(ManifestsIngested { repo_root, single: is_single_package, workspaces, graph, lockfile })
    }

    /// The degenerate one-package graph: the root anchor, the root
    /// workspace, and the edge between them. No dependency classification
    /// and no closure computation happen in this mode.
    pub fn build_single_package_graph(self, package_manager: PackageManager) -> (g: PackageGraph<
        L,
    >)
        requires
            self.is_single_package,
        ensures
            g.wf(),
            g.packages.entries@.len() == 1,
            g.packages.entries@[0].0@ == NameKey::Root,
            g.packages.entries@[0].1.package_json == self.root_package_json,
            g.packages.entries@[0].1.unresolved_external_dependencies is None,
            g.packages.entries@[0].1.transitive_dependencies is None,
            g.package_manager == package_manager,
            g.lockfile == self.lockfile,
            graph_edges(g.graph) == seq![(1usize, 0usize)],
    {
        let PackageGraphBuilder { root_package_json, lockfile, .. } = self;
        let mut workspaces = WorkspaceTable::new();
        let mut graph = graph_new();
        let root_idx = graph_add_node(&mut graph, PackageNode::Root);
        let root_ws_idx = graph_add_node(&mut graph, PackageNode::Workspace(PackageName::Root));
        graph_add_edge(&mut graph, root_ws_idx, root_idx);
        workspaces.push_new(
            PackageName::Root,
            PackageInfo::new(root_package_json, root_manifest_path()),
        );
        proof {
            assert(graph_nodes(graph) =~= nodes_of(workspaces.entries@));
            assert(graph_edges(graph) =~= seq![(1usize, 0usize)]);
        }
        let g = PackageGraph { graph, packages: workspaces, package_manager, lockfile };
        proof {
            assert(graph_edges(g.graph)[0] == (1usize, 0usize));
            assert(edge_in(graph_edges(g.graph), 1, 0));
            assert forall|v: usize|
                1 <= v < graph_nodes(g.graph).len() implies edge_from(graph_edges(g.graph), v) by {
                assert(graph_edges(g.graph)[0] == (1usize, 0usize));
            }
        }
        g
    }
}

/// The classifier's verdict for table entry `i`: the workspaces its
/// dependencies resolve to.
pub open spec fn entry_internals(
    entries: Seq<(PackageName, PackageInfo)>,
    root: Seq<Seq<u8>>,
    i: int,
) -> Seq<NameKey> {
    spec_split_internals(
        entries,
        root,
        spec_abs_dir(root, view_comps(entries[i].1.package_json_path@)),
        entries[i].1.package_json.dependencies@,
    )
}

/// The classifier's verdict for table entry `i`: the external remainder of
/// its dependencies.
pub open spec fn entry_externals(
    entries: Seq<(PackageName, PackageInfo)>,
    root: Seq<Seq<u8>>,
    i: int,
) -> Seq<(Seq<u8>, Seq<u8>)> {
    spec_split_externals(
        entries,
        root,
        spec_abs_dir(root, view_comps(entries[i].1.package_json_path@)),
        entries[i].1.package_json.dependencies@,
    )
}

/// Every edge the resolution phase may produce: the root workspace's anchor
/// edge, a fallback edge from a workspace with no internal dependencies to
/// the root anchor, or an edge from a workspace to one of the workspaces its
/// dependencies resolve to.
pub open spec fn edge_conforms(
    entries: Seq<(PackageName, PackageInfo)>,
    root: Seq<Seq<u8>>,
    e: (usize, usize),
) -> bool {
    ||| e == (1usize, 0usize)
    ||| exists|i: int|
        0 <= i < entries.len() && e.0 == i + 1 && (#[trigger] entry_internals(
            entries,
            root,
            i,
        )).len() == 0 && e.1 == 0
    ||| exists|i: int, k: NameKey|
        0 <= i < entries.len() && e.0 == i + 1 && #[trigger] entry_internals(
            entries,
            root,
            i,
        ).contains(k) && spec_table_find(entries, k) == Some(e.1 - 1)
}

/// An existing edge survives appending another.
proof fn lemma_edge_in_push(edges: Seq<(usize, usize)>, x: (usize, usize), a: usize, b: usize)
    requires
        edge_in(edges, a, b),
    ensures
        edge_in(edges.push(x), a, b),
{
    let k = choose|k: int| 0 <= k < edges.len() && edges[k] == (a, b);
    assert(edges.push(x)[k] == (a, b));
}

/// The phase after edge resolution: internal edges and root fallback edges
/// exist, every workspace records its external requests, and the lockfile
/// has been decided.
pub struct EdgesResolved<L> {
    pub repo_root: Vec<Vec<u8>>,
    pub single: bool,
    pub workspaces: WorkspaceTable,
    pub graph: Graph<PackageNode, (), Directed, usize>,
    pub lockfile: Option<L>,
}

impl<L> EdgesResolved<L> {
    pub open spec fn wf(&self) -> bool {
        &&& self.workspaces.wf()
        &&& self.workspaces.entries@.len() >= 1
        &&& self.workspaces.entries@[0].0@ == NameKey::Root
        &&& graph_nodes(self.graph) == nodes_of(self.workspaces.entries@)
        &&& edge_in(graph_edges(self.graph), 1, 0)
        &&& forall|k: int|
            0 <= k < graph_edges(self.graph).len() ==> (#[trigger] graph_edges(self.graph)[k]).0
                < graph_nodes(self.graph).len() && graph_edges(self.graph)[k].1 < graph_nodes(
                self.graph,
            ).len()
        &&& forall|v: usize|
            1 <= v < graph_nodes(self.graph).len() ==> edge_from(graph_edges(self.graph), v)
    }
}

impl<L> ManifestsIngested<L> {
    /// Classifies every workspace's dependencies, adds the internal edges
    /// (or the fallback edge to the root anchor when a workspace has none),
    /// stores each workspace's external remainder, and settles the lockfile:
    /// the pre-supplied one when present, else whatever the caller's loader
    /// produced (`None` after a load failure, which is not fatal).
    pub fn resolve_lockfile(self, loaded: Option<L>) -> (r: EdgesResolved<L>)
        requires
            self.wf(),
        ensures
            r.wf(),
            r.repo_root == self.repo_root,
            r.single == self.single,
            r.lockfile == (if self.lockfile is Some {
                self.lockfile
            } else {
                loaded
            }),
            r.workspaces.entries@.len() == self.workspaces.entries@.len(),
            forall|i: int|
                0 <= i < r.workspaces.entries@.len() ==> {
                    let old_e = self.workspaces.entries@[i];
                    let new_e = #[trigger] r.workspaces.entries@[i];
                    &&& new_e.0 == old_e.0
                    &&& new_e.1.package_json == old_e.1.package_json
                    &&& new_e.1.package_json_path == old_e.1.package_json_path
                    &&& new_e.1.transitive_dependencies is None
                    &&& new_e.1.unresolved_external_dependencies matches Some(x) && dep_views(x@)
                        == entry_externals(
                        self.workspaces.entries@,
                        view_comps(self.repo_root@),
                        i,
                    )
                },
            graph_nodes(r.graph) == nodes_of(self.workspaces.entries@),
            edge_in(graph_edges(r.graph), 1, 0),
            forall|i: int|
                0 <= i < self.workspaces.entries@.len() && (#[trigger] entry_internals(
                    self.workspaces.entries@,
                    view_comps(self.repo_root@),
                    i,
                )).len() == 0 ==> edge_in(graph_edges(r.graph), (i + 1) as usize, 0),
            forall|i: int, k: NameKey|
                0 <= i < self.workspaces.entries@.len() && #[trigger] entry_internals(
                    self.workspaces.entries@,
                    view_comps(self.repo_root@),
                    i,
                ).contains(k) ==> edge_in(
                    graph_edges(r.graph),
                    (i + 1) as usize,
                    (spec_table_find(self.workspaces.entries@, k)->0 + 1) as usize,
                ),
            forall|p: int|
                0 <= p < graph_edges(r.graph).len() ==> edge_conforms(
                    self.workspaces.entries@,
                    view_comps(self.repo_root@),
                    #[trigger] graph_edges(r.graph)[p],
                ),
    {
        let ghost old_entries = self.workspaces.entries@;
        let ghost rootv = view_comps(self.repo_root@);
        let ManifestsIngested { repo_root, single, workspaces, mut graph, lockfile } = self;
        let count = workspaces.len();

        let mut splits: Vec<Dependencies> = Vec::new();
        let mut i: usize = 0;
        while i < count
            invariant
                old_entries == self.workspaces.entries@,
                rootv == view_comps(self.repo_root@),
                workspaces.entries@ == old_entries,
                repo_root == self.repo_root,
                count == old_entries.len(),
                0 <= i <= count,
                splits@.len() == i,
                forall|j: int|
                    0 <= j < i ==> name_views((#[trigger] splits@[j]).internal@)
                        == entry_internals(old_entries, rootv, j) && dep_views(splits@[j].external@)
                        == entry_externals(old_entries, rootv, j),
            decreases count - i,
        {
            let d = Dependencies::new(
                &repo_root,
                &workspaces.entries[i].1.package_json_path,
                &workspaces,
                &workspaces.entries[i].1.package_json.dependencies,
            );
            splits.push(d);
            i += 1;
        }

        proof {
            assert(graph_edges(graph)[0] == (1usize, 0usize));
            assert(edge_in(graph_edges(graph), 1, 0));
        }
        let mut i: usize = 0;
        while i < count
            invariant
                old_entries == self.workspaces.entries@,
                rootv == view_comps(self.repo_root@),
                workspaces.entries@ == old_entries,
                workspaces.wf(),
                count == old_entries.len(),
                count >= 1,
                old_entries[0].0@ == NameKey::Root,
                0 <= i <= count,
                splits@.len() == count,
                forall|j: int|
                    0 <= j < count ==> name_views((#[trigger] splits@[j]).internal@)
                        == entry_internals(old_entries, rootv, j) && dep_views(splits@[j].external@)
                        == entry_externals(old_entries, rootv, j),
                graph_nodes(graph) == nodes_of(old_entries),
                edge_in(graph_edges(graph), 1, 0),
                forall|j: int|
                    0 <= j < i && (#[trigger] entry_internals(old_entries, rootv, j)).len() == 0
                        ==> edge_in(graph_edges(graph), (j + 1) as usize, 0),
                forall|j: int, k: NameKey|
                    0 <= j < i && #[trigger] entry_internals(old_entries, rootv, j).contains(k)
                        ==> edge_in(
                        graph_edges(graph),
                        (j + 1) as usize,
                        (spec_table_find(old_entries, k)->0 + 1) as usize,
                    ),
                forall|p: int|
                    0 <= p < graph_edges(graph).len() ==> edge_conforms(
                        old_entries,
                        rootv,
                        #[trigger] graph_edges(graph)[p],
                    ),
            decreases count - i,
        {
            let internal_count = splits[i].internal.len();
            if internal_count == 0 {
                let ghost before = graph_edges(graph);
                graph_add_edge(&mut graph, i + 1, 0);
                proof {
                    assert(graph_edges(graph)[before.len() as int] == ((i + 1) as usize, 0usize));
                    assert forall|a: usize, b: usize| edge_in(before, a, b) implies edge_in(
                        graph_edges(graph),
                        a,
                        b,
                    ) by {
                        lemma_edge_in_push(before, ((i + 1) as usize, 0usize), a, b);
                    }
                }
            } else {
                let mut t: usize = 0;
                while t < internal_count
                    invariant
                        old_entries == self.workspaces.entries@,
                        rootv == view_comps(self.repo_root@),
                        workspaces.entries@ == old_entries,
                        workspaces.wf(),
                        count == old_entries.len(),
                        0 <= i < count,
                        0 <= t <= internal_count,
                        splits@.len() == count,
                        internal_count == splits@[i as int].internal@.len(),
                        forall|j: int|
                            0 <= j < count ==> name_views((#[trigger] splits@[j]).internal@)
                                == entry_internals(old_entries, rootv, j) && dep_views(
                                splits@[j].external@,
                            ) == entry_externals(old_entries, rootv, j),
                        graph_nodes(graph) == nodes_of(old_entries),
                        edge_in(graph_edges(graph), 1, 0),
                        forall|j: int|
                            0 <= j < i && (#[trigger] entry_internals(
                                old_entries,
                                rootv,
                                j,
                            )).len() == 0 ==> edge_in(graph_edges(graph), (j + 1) as usize, 0),
                        forall|j: int, k: NameKey|
                            0 <= j < i && #[trigger] entry_internals(
                                old_entries,
                                rootv,
                                j,
                            ).contains(k) ==> edge_in(
                                graph_edges(graph),
                                (j + 1) as usize,
                                (spec_table_find(old_entries, k)->0 + 1) as usize,
                            ),
                        forall|s: int|
                            0 <= s < t ==> edge_in(
                                graph_edges(graph),
                                (i + 1) as usize,
                                (spec_table_find(
                                    old_entries,
                                    name_views(splits@[i as int].internal@)[s],
                                )->0 + 1) as usize,
                            ),
                        forall|p: int|
                            0 <= p < graph_edges(graph).len() ==> edge_conforms(
                                old_entries,
                                rootv,
                                #[trigger] graph_edges(graph)[p],
                            ),
                    decreases internal_count - t,
                {
                    let name = &splits[i].internal[t];
                    let ghost k = name_views(splits@[i as int].internal@)[t as int];
                    proof {
                        assert(splits@[i as int].internal@[t as int]@ == k);
                        assert(entry_internals(old_entries, rootv, i as int).contains(k)) by {
                            assert(name_views(splits@[i as int].internal@)[t as int] == k);
                        }
                    }
                    match workspaces.find(name) {
                        Some(j) => {
                            let ghost before = graph_edges(graph);
                            graph_add_edge(&mut graph, i + 1, j + 1);
                            proof {
                                assert(spec_table_find(old_entries, k) == Some(j as int));
                                assert(graph_edges(graph)[before.len() as int] == ((i + 1) as usize, (
                                j + 1) as usize));
                                assert forall|a: usize, b: usize| edge_in(before, a, b) implies
                                    edge_in(graph_edges(graph), a, b) by {
                                    lemma_edge_in_push(
                                        before,
                                        ((i + 1) as usize, (j + 1) as usize),
                                        a,
                                        b,
                                    );
                                }
                            }
                        },
                        None => {
                            proof {
                                assert(spec_split_internals(
                                    old_entries,
                                    rootv,
                                    spec_abs_dir(
                                        rootv,
                                        view_comps(old_entries[i as int].1.package_json_path@),
                                    ),
                                    old_entries[i as int].1.package_json.dependencies@,
                                ).contains(k));
                                crate::classify::lemma_internals_in_table(
                                    old_entries,
                                    rootv,
                                    spec_abs_dir(
                                        rootv,
                                        view_comps(old_entries[i as int].1.package_json_path@),
                                    ),
                                    old_entries[i as int].1.package_json.dependencies@,
                                    k,
                                );
                                crate::table::lemma_spec_table_find(old_entries, k);
                                assert(false);
                            }
                        },
                    }
                    t += 1;
                }
                proof {
                    let names = entry_internals(old_entries, rootv, i as int);
                    assert forall|k: NameKey| names.contains(k) implies edge_in(
                        graph_edges(graph),
                        (i + 1) as usize,
                        (spec_table_find(old_entries, k)->0 + 1) as usize,
                    ) by {
                        let s = choose|s: int| 0 <= s < names.len() && names[s] == k;
                        assert(name_views(splits@[i as int].internal@)[s] == k);
                    }
                }
            }
            i += 1;
        }

        let mut drained = workspaces;
        let mut splits_rest = splits;
        let mut table = WorkspaceTable::new();
        let mut idx: usize = 0;
        while idx < count
            invariant
                old_entries == self.workspaces.entries@,
                rootv == view_comps(self.repo_root@),
                count == old_entries.len(),
                0 <= idx <= count,
                drained.entries@ =~= old_entries.skip(idx as int),
                splits_rest@.len() == count - idx,
                forall|j: int|
                    0 <= j < count - idx ==> name_views((#[trigger] splits_rest@[j]).internal@)
                        == entry_internals(old_entries, rootv, j + idx) && dep_views(
                        splits_rest@[j].external@,
                    ) == entry_externals(old_entries, rootv, j + idx),
                forall|i1: int, i2: int|
                    0 <= i1 < i2 < old_entries.len() ==> old_entries[i1].0@ != old_entries[i2].0@,
                table.entries@.len() == idx,
                table.wf(),
                forall|j: int|
                    0 <= j < idx ==> {
                        let old_e = old_entries[j];
                        let new_e = #[trigger] table.entries@[j];
                        &&& new_e.0 == old_e.0
                        &&& new_e.1.package_json == old_e.1.package_json
                        &&& new_e.1.package_json_path == old_e.1.package_json_path
                        &&& new_e.1.transitive_dependencies == old_e.1.transitive_dependencies
                        &&& new_e.1.unresolved_external_dependencies matches Some(x) && dep_views(
                            x@,
                        ) == entry_externals(old_entries, rootv, j)
                    },
            decreases count - idx,
        {
            proof {
                assert(old_entries.skip(idx as int)[0] == old_entries[idx as int]);
                assert(old_entries.skip(idx as int).drop_first() =~= old_entries.skip(idx + 1));
            }
            let (name, mut info) = drained.entries.remove(0);
            let d = splits_rest.remove(0);
            info.unresolved_external_dependencies = Some(d.external);
            proof {
                lemma_spec_table_find(table.entries@, name@);
            }
            table.push_new(name, info);
            idx += 1;
        }

        let out = EdgesResolved {
            repo_root,
            single,
            workspaces: table,
            graph,
            lockfile: match lockfile {
                Some(l) => Some(l),
                None => loaded,
            },
        };
        proof {
            assert(nodes_of(out.workspaces.entries@) =~= nodes_of(old_entries));
            assert forall|v: usize|
                1 <= v < graph_nodes(out.graph).len() implies edge_from(
                graph_edges(out.graph),
                v,
            ) by {
                let i = v - 1;
                let names = entry_internals(old_entries, rootv, i as int);
                if names.len() == 0 {
                    let e = ((i + 1) as usize, 0usize);
                    assert(edge_in(graph_edges(out.graph), (i + 1) as usize, 0));
                    let p = choose|p: int|
                        0 <= p < graph_edges(out.graph).len() && graph_edges(out.graph)[p] == e;
                    assert((graph_edges(out.graph)[p]).0 == v);
                } else {
                    let k = names[0];
                    assert(names.contains(k));
                    let tgt = (spec_table_find(old_entries, k)->0 + 1) as usize;
                    assert(edge_in(graph_edges(out.graph), (i + 1) as usize, tgt));
                    let e = ((i + 1) as usize, tgt);
                    let p = choose|p: int|
                        0 <= p < graph_edges(out.graph).len() && graph_edges(out.graph)[p] == e;
                    assert((graph_edges(out.graph)[p]).0 == v);
                }
            }
            assert forall|p: int|
                0 <= p < graph_edges(out.graph).len() implies (#[trigger] graph_edges(
                out.graph,
            )[p]).0 < graph_nodes(out.graph).len() && graph_edges(out.graph)[p].1 < graph_nodes(
                out.graph,
            ).len() by {
                assert(edge_conforms(old_entries, rootv, graph_edges(out.graph)[p]));
                let e = graph_edges(out.graph)[p];
                if e != (1usize, 0usize) && !(exists|i: int|
                    0 <= i < old_entries.len() && e.0 == i + 1 && (#[trigger] entry_internals(
                        old_entries,
                        rootv,
                        i,
                    )).len() == 0 && e.1 == 0) {
                    let (i, k): (int, NameKey) = choose|i: int, k: NameKey|
                        0 <= i < old_entries.len() && e.0 == i + 1 && #[trigger] entry_internals(
                            old_entries,
                            rootv,
                            i,
                        ).contains(k) && spec_table_find(old_entries, k) == Some(e.1 - 1);
                    lemma_spec_table_find(old_entries, k);
                }
            }
        }
        out
    }
}

/// The views of a list of closure packages.
pub open spec fn pkg_views(s: Seq<Package>) -> Seq<(Seq<u8>, Seq<u8>)> {
    s.map_values(|p: Package| (p.key@, p.version@))
}

/// The views of an optional closure.
pub open spec fn trans_views(t: Option<Vec<Package>>) -> Option<Seq<(Seq<u8>, Seq<u8>)>> {
    match t {
        Some(v) => Some(pkg_views(v@)),
        None => None,
    }
}

/// The closure recorded for a workspace directory: the first entry of the
/// caller's answer whose key is that directory's unix rendering, if any.
pub open spec fn spec_closure_for(cl: Seq<(Vec<u8>, Vec<Package>)>, dir: Seq<u8>) -> Option<
    Seq<(Seq<u8>, Seq<u8>)>,
>
    decreases cl.len(),
{
    if cl.len() == 0 {
        None
    } else if cl[0].0@ == dir {
        Some(pkg_views(cl[0].1@))
    } else {
        spec_closure_for(cl.drop_first(), dir)
    }
}

/// Looks a directory's closure up and copies it out.
fn lookup_closure(cl: &Vec<(Vec<u8>, Vec<Package>)>, dir: &Vec<u8>) -> (r: Option<Vec<Package>>)
    ensures
        match r {
            Some(v) => spec_closure_for(cl@, dir@) == Some(pkg_views(v@)),
            None => spec_closure_for(cl@, dir@) is None,
        },
{
    proof {
        assert(cl@.skip(0) =~= cl@);
    }
    let mut i: usize = 0;
    while i < cl.len()
        invariant
            0 <= i <= cl@.len(),
            spec_closure_for(cl@, dir@) == spec_closure_for(cl@.skip(i as int), dir@),
        decreases cl@.len() - i,
    {
        proof {
            assert(cl@.skip(i as int)[0] == cl@[i as int]);
            assert(cl@.skip(i as int).drop_first() =~= cl@.skip(i + 1));
        }
        if bytes_eq(cl[i].0.as_slice(), dir.as_slice()) {
            let found = &cl[i].1;
            let mut out: Vec<Package> = Vec::new();
            let mut p: usize = 0;
            while p < found.len()
                invariant
                    0 <= p <= found@.len(),
                    found == &cl@[i as int].1,
                    i < cl@.len(),
                    pkg_views(out@) =~= pkg_views(found@).take(p as int),
                decreases found@.len() - p,
            {
                let ghost before = pkg_views(out@);
                out.push(
                    Package {
                        key: slice_to_vec(found[p].key.as_slice()),
                        version: slice_to_vec(found[p].version.as_slice()),
                    },
                );
                proof {
                    assert(pkg_views(out@) =~= before.push(pkg_views(found@)[p as int]));
                    assert(pkg_views(out@) =~= pkg_views(found@).take(p + 1));
                }
                p += 1;
            }
            proof {
                assert(pkg_views(found@).take(found@.len() as int) =~= pkg_views(found@));
            }
            return Some(out);
        }
        i += 1;
    }
    proof {
        assert(cl@.skip(i as int) =~= Seq::<(Vec<u8>, Vec<Package>)>::empty());
    }
    None
}

impl<L> EdgesResolved<L> {
    /// The input of the closure port: for every workspace, its directory's
    /// unix rendering paired with its recorded external requests (empty when
    /// none were recorded).
    pub fn all_external_dependencies(&self) -> (r: Vec<(Vec<u8>, Vec<(Vec<u8>, Vec<u8>)>)>)
        ensures
            r@.len() == self.workspaces.entries@.len(),
            forall|i: int|
                0 <= i < r@.len() ==> (#[trigger] r@[i]).0@ == join_slash(
                    self.workspaces.entries@[i].1.spec_dir(),
                ) && dep_views(r@[i].1@) == (match self.workspaces.entries@[i]
                    .1
                    .unresolved_external_dependencies {
                    Some(x) => dep_views(x@),
                    None => Seq::empty(),
                }),
    {
        let mut out: Vec<(Vec<u8>, Vec<(Vec<u8>, Vec<u8>)>)> = Vec::new();
        let count = self.workspaces.len();
        let mut i: usize = 0;
        while i < count
            invariant
                count == self.workspaces.entries@.len(),
                0 <= i <= count,
                out@.len() == i,
                forall|j: int|
                    0 <= j < i ==> (#[trigger] out@[j]).0@ == join_slash(
                        self.workspaces.entries@[j].1.spec_dir(),
                    ) && dep_views(out@[j].1@) == (match self.workspaces.entries@[j]
                        .1
                        .unresolved_external_dependencies {
                        Some(x) => dep_views(x@),
                        None => Seq::empty(),
                    }),
            decreases count - i,
        {
            let info = &self.workspaces.entries[i].1;
            let dir = info.unix_dir_str();
            let mut deps: Vec<(Vec<u8>, Vec<u8>)> = Vec::new();
            match &info.unresolved_external_dependencies {
                Some(x) => {
                    let mut p: usize = 0;
                    while p < x.len()
                        invariant
                            0 <= p <= x@.len(),
                            x == &self.workspaces.entries@[i as int]
                                .1
                                .unresolved_external_dependencies->0,
                            i < self.workspaces.entries@.len(),
                            dep_views(deps@) =~= dep_views(x@).take(p as int),
                        decreases x@.len() - p,
                    {
                        let ghost before = dep_views(deps@);
                        deps.push(
                            (slice_to_vec(x[p].0.as_slice()), slice_to_vec(x[p].1.as_slice())),
                        );
                        proof {
                            assert(dep_views(deps@) =~= before.push(dep_views(x@)[p as int]));
                            assert(dep_views(deps@) =~= dep_views(x@).take(p + 1));
                        }
                        p += 1;
                    }
                    proof {
                        assert(dep_views(x@).take(x@.len() as int) =~= dep_views(x@));
                    }
                },
                None => {
                    proof {
                        assert(dep_views(deps@) =~= Seq::<(Seq<u8>, Seq<u8>)>::empty());
                    }
                },
            }
            out.push((dir, deps));
            i += 1;
        }
        out
    }

    /// Attaches the caller's transitive closures: each workspace gets the
    /// closure recorded under its directory's unix rendering, or `None` when
    /// the answer has no entry for it. `None` for the whole answer — no
    /// lockfile, or a failed closure computation — leaves every closure
    /// unset and is not fatal.
    pub fn populate_transitive_dependencies(
        self,
        closures: Option<Vec<(Vec<u8>, Vec<Package>)>>,
    ) -> (r: EdgesResolved<L>)
        requires
            self.wf(),
        ensures
            r.wf(),
            r.repo_root == self.repo_root,
            r.single == self.single,
            r.lockfile == self.lockfile,
            r.graph == self.graph,
            r.workspaces.entries@.len() == self.workspaces.entries@.len(),
            forall|i: int|
                0 <= i < r.workspaces.entries@.len() ==> {
                    let old_e = self.workspaces.entries@[i];
                    let new_e = #[trigger] r.workspaces.entries@[i];
                    &&& new_e.0 == old_e.0
                    &&& new_e.1.package_json == old_e.1.package_json
                    &&& new_e.1.package_json_path == old_e.1.package_json_path
                    &&& new_e.1.unresolved_external_dependencies
                        == old_e.1.unresolved_external_dependencies
                    &&& trans_views(new_e.1.transitive_dependencies) == (match closures {
                        Some(cl) => spec_closure_for(cl@, join_slash(old_e.1.spec_dir())),
                        None => trans_views(old_e.1.transitive_dependencies),
                    })
                },
    {
        let ghost old_entries = self.workspaces.entries@;
        let EdgesResolved { repo_root, single, mut workspaces, graph, lockfile } = self;
        let cl = match closures {
            None => {
                return EdgesResolved { repo_root, single, workspaces, graph, lockfile };
            },
            Some(cl) => cl,
        };
        let count = workspaces.len();
        let mut table = WorkspaceTable::new();
        let mut idx: usize = 0;
        while idx < count
            invariant
                old_entries == self.workspaces.entries@,
                count == old_entries.len(),
                0 <= idx <= count,
                workspaces.entries@ =~= old_entries.skip(idx as int),
                forall|i1: int, i2: int|
                    0 <= i1 < i2 < old_entries.len() ==> old_entries[i1].0@ != old_entries[i2].0@,
                table.entries@.len() == idx,
                table.wf(),
                forall|j: int|
                    0 <= j < idx ==> {
                        let old_e = old_entries[j];
                        let new_e = #[trigger] table.entries@[j];
                        &&& new_e.0 == old_e.0
                        &&& new_e.1.package_json == old_e.1.package_json
                        &&& new_e.1.package_json_path == old_e.1.package_json_path
                        &&& new_e.1.unresolved_external_dependencies
                            == old_e.1.unresolved_external_dependencies
                        &&& trans_views(new_e.1.transitive_dependencies) == spec_closure_for(
                            cl@,
                            join_slash(old_e.1.spec_dir()),
                        )
                    },
            decreases count - idx,
        {
            proof {
                assert(old_entries.skip(idx as int)[0] == old_entries[idx as int]);
                assert(old_entries.skip(idx as int).drop_first() =~= old_entries.skip(idx + 1));
            }
            let (name, mut info) = workspaces.entries.remove(0);
            let dir = info.unix_dir_str();
            info.transitive_dependencies = lookup_closure(&cl, &dir);
            proof {
                lemma_spec_table_find(table.entries@, name@);
            }
            table.push_new(name, info);
            idx += 1;
        }
        let out = EdgesResolved { repo_root, single, workspaces: table, graph, lockfile };
        proof {
            assert(nodes_of(out.workspaces.entries@) =~= nodes_of(old_entries));
        }
        out
    }

    /// Emits the finished, immutable graph.
    pub fn build_inner(self, package_manager: PackageManager) -> (g: PackageGraph<L>)
        requires
            self.wf(),
        ensures
            g.wf(),
            g.packages == self.workspaces,
            g.graph == self.graph,
            g.lockfile == self.lockfile,
            g.package_manager == package_manager,
    {
        let EdgesResolved { workspaces, graph, lockfile, .. } = self;
        PackageGraph { graph, packages: workspaces, package_manager, lockfile }
    }
}

} // verus!
