//! The finished package graph: a directed graph over vertex payloads, the
//! workspace table, the resolved package manager and the optional lockfile
//! handle. Immutable once built.

use vstd::prelude::*;

use crate::digraph::{graph_edge_pairs, graph_edges, graph_nodes};
use crate::manifest::PackageInfo;
use crate::name::{NameKey, NodeKey, PackageName, PackageNode};
use crate::table::{spec_table_contains, spec_table_find, WorkspaceTable};
use petgraph::graph::Graph;
use petgraph::Directed;

verus! {

/// The package manager detected for the repository.
#[derive(Debug, Clone, Copy, PartialEq, Eq, Structural)]
pub enum PackageManager {
    Npm,
    Yarn,
    Berry,
    Pnpm,
    Pnpm6,
    Pnpm9,
    Bun,
}

/// The vertex payloads a table of workspaces gives rise to: the root anchor
/// first, then one workspace vertex per entry, in table order.
pub open spec fn nodes_of(entries: Seq<(PackageName, PackageInfo)>) -> Seq<NodeKey> {
    seq![NodeKey::Root] + entries.map_values(
        |e: (PackageName, PackageInfo)| NodeKey::Workspace(e.0@),
    )
}

/// Whether the edge list holds an edge from `a` to `b`.
pub open spec fn edge_in(edges: Seq<(usize, usize)>, a: usize, b: usize) -> bool {
    exists|k: int| 0 <= k < edges.len() && #[trigger] edges[k] == (a, b)
}

/// Whether some edge leaves vertex `v`.
pub open spec fn edge_from(edges: Seq<(usize, usize)>, v: usize) -> bool {
    exists|k: int| 0 <= k < edges.len() && (#[trigger] edges[k]).0 == v
}

/// The immutable artifact of a build.
pub struct PackageGraph<L> {
    pub graph: Graph<PackageNode, (), Directed, usize>,
    pub packages: WorkspaceTable,
    pub package_manager: PackageManager,
    pub lockfile: Option<L>,
}

impl<L> PackageGraph<L> {
    /// Well-formedness: the table's keys are unique and start with the root
    /// package; the vertices are the root anchor followed by one workspace
    /// vertex per table entry; the root workspace is tied to the root
    /// anchor; every edge stays inside the graph; and every vertex but the
    /// root anchor has an outgoing edge.
    pub open spec fn wf(&self) -> bool {
        &&& self.packages.wf()
        &&& self.packages.entries@.len() >= 1
        &&& self.packages.entries@[0].0@ == NameKey::Root
        &&& graph_nodes(self.graph) == nodes_of(self.packages.entries@)
        &&& edge_in(graph_edges(self.graph), 1, 0)
        &&& forall|k: int|
            0 <= k < graph_edges(self.graph).len() ==> (#[trigger] graph_edges(self.graph)[k]).0
                < graph_nodes(self.graph).len() && graph_edges(self.graph)[k].1 < graph_nodes(
                self.graph,
            ).len()
        &&& forall|v: usize|
            1 <= v < graph_nodes(self.graph).len() ==> edge_from(graph_edges(self.graph), v)
    }

    /// Number of vertices: the workspaces plus the root anchor.
    pub fn node_count(&self) -> (n: usize)
        requires
            self.wf(),
        ensures
            n == self.packages.entries@.len() + 1,
    {
        crate::digraph::graph_node_count(&self.graph)
    }

    /// The graph index of a vertex payload: the root anchor sits at index 0
    /// and the workspace of table entry `j` at index `j + 1`.
    pub fn node_index(&self, node: &PackageNode) -> (r: Option<usize>)
        requires
            self.wf(),
        ensures
            match r {
                Some(i) => i < graph_nodes(self.graph).len() && graph_nodes(self.graph)[i as int]
                    == node@,
                None => node@ matches NodeKey::Workspace(k) && !spec_table_contains(
                    self.packages.entries@,
                    k,
                ),
            },
    {
        match node {
            PackageNode::Root => Some(0),
            PackageNode::Workspace(name) => {
                let count = self.packages.len();
                match self.packages.find(name) {
                    Some(j) => {
                        proof {
                            assert(nodes_of(self.packages.entries@)[j + 1] == NodeKey::Workspace(
                                self.packages.entries@[j as int].0@,
                            ));
                        }
                        Some(j + 1)
                    },
                    None => None,
                }
            },
        }
    }

    /// Whether the graph holds an edge from vertex index `a` to `b`.
    pub fn contains_edge(&self, a: usize, b: usize) -> (r: bool)
        ensures
            r == edge_in(graph_edges(self.graph), a, b),
    {
        let pairs = graph_edge_pairs(&self.graph);
        let mut k: usize = 0;
        while k < pairs.len()
            invariant
                0 <= k <= pairs@.len(),
                pairs@ == graph_edges(self.graph),
                forall|p: int| 0 <= p < k ==> #[trigger] pairs@[p] != (a, b),
            decreases pairs@.len() - k,
        {
            let (x, y) = pairs[k];
            if x == a && y == b {
                return true;
            }
            k += 1;
        }
        false
    }

    /// The record of the workspace named `name`, if any.
    pub fn package_info(&self, name: &PackageName) -> (r: Option<&PackageInfo>)
        ensures
            match r {
                None => !spec_table_contains(self.packages.entries@, name@),
                Some(info) => spec_table_find(self.packages.entries@, name@) matches Some(j)
                    && *info == self.packages.entries@[j].1,
            },
    {
        self.packages.get(name)
    }
}

/// No two vertices of a well-formed graph carry the same payload: there is
/// at most one vertex per package name, exactly one root anchor, and exactly
/// one vertex for the root workspace.
pub proof fn lemma_one_vertex_per_name<L>(g: &PackageGraph<L>)
    requires
        g.wf(),
    ensures
        forall|i: int, j: int|
            0 <= i < j < graph_nodes(g.graph).len() ==> graph_nodes(g.graph)[i] != graph_nodes(
                g.graph,
            )[j],
{
    let nodes = graph_nodes(g.graph);
    let entries = g.packages.entries@;
    assert forall|i: int, j: int| 0 <= i < j < nodes.len() implies nodes[i] != nodes[j] by {
        if i == 0 {
            assert(nodes[j] == NodeKey::Workspace(entries[j - 1].0@));
        } else {
            assert(nodes[i] == NodeKey::Workspace(entries[i - 1].0@));
            assert(nodes[j] == NodeKey::Workspace(entries[j - 1].0@));
            assert(entries[i - 1].0@ != entries[j - 1].0@);
        }
    }
}

} // verus!
