//! The directed graph that carries the workspace topology, backed by
//! `petgraph`. The graph is opaque to verification; its contents are named
//! by two uninterpreted functions — the vertex payloads in insertion order,
//! and the edges as index pairs in insertion order — and every `petgraph`
//! call the build makes goes through a wrapper whose contract is stated over
//! those two names.
//!
//! The node index type is `usize`, for which `petgraph`'s index-capacity
//! errors are never taken (its index limit then coincides with what memory
//! can hold).

use vstd::prelude::*;

use crate::name::{NodeKey, PackageNode};
use petgraph::graph::Graph;
use petgraph::visit::EdgeRef;
use petgraph::Directed;

verus! {

#[verifier::external_type_specification]
#[verifier::external_body]
#[verifier::reject_recursive_types(N)]
#[verifier::reject_recursive_types(E)]
#[verifier::reject_recursive_types(Ty)]
#[verifier::reject_recursive_types(Ix)]
pub struct ExGraph<N, E, Ty, Ix>(Graph<N, E, Ty, Ix>);

#[verifier::external_type_specification]
#[verifier::external_body]
pub struct ExDirected(Directed);

/// The vertex payloads of the graph, in insertion order.
pub uninterp spec fn graph_nodes(g: Graph<PackageNode, (), Directed, usize>) -> Seq<NodeKey>;

/// The edges of the graph, as `(source index, target index)` pairs in
/// insertion order.
pub uninterp spec fn graph_edges(g: Graph<PackageNode, (), Directed, usize>) -> Seq<
    (usize, usize),
>;

/// Relies on `petgraph::graph::Graph::with_capacity`: an empty graph.
#[verifier::external_body]
pub fn graph_new() -> (g: Graph<PackageNode, (), Directed, usize>)
    ensures
        graph_nodes(g) == Seq::<NodeKey>::empty(),
        graph_edges(g) == Seq::<(usize, usize)>::empty(),
{
    Graph::with_capacity(0, 0)
}

/// Relies on `petgraph::graph::Graph::add_node`: appends a vertex and
/// returns its index, the previous vertex count.
#[verifier::external_body]
pub fn graph_add_node(
    g: &mut Graph<PackageNode, (), Directed, usize>,
    node: PackageNode,
) -> (i: usize)
    ensures
        graph_nodes(*final(g)) == graph_nodes(*old(g)).push(node@),
        graph_edges(*final(g)) == graph_edges(*old(g)),
        i == graph_nodes(*old(g)).len(),
{
    g.add_node(node).index()
}

/// Relies on `petgraph::graph::Graph::add_edge`: appends an edge between two
/// existing vertices. It panics on a vertex index out of bounds, so the
/// contract keeps those out.
#[verifier::external_body]
pub fn graph_add_edge(g: &mut Graph<PackageNode, (), Directed, usize>, a: usize, b: usize)
    requires
        a < graph_nodes(*old(g)).len(),
        b < graph_nodes(*old(g)).len(),
    ensures
        graph_nodes(*final(g)) == graph_nodes(*old(g)),
        graph_edges(*final(g)) == graph_edges(*old(g)).push((a, b)),
{
    g.add_edge(
        petgraph::graph::NodeIndex::new(a),
        petgraph::graph::NodeIndex::new(b),
        (),
    );
}

/// Relies on `petgraph::graph::Graph::node_count`: the number of vertices.
#[verifier::external_body]
pub fn graph_node_count(g: &Graph<PackageNode, (), Directed, usize>) -> (n: usize)
    ensures
        n == graph_nodes(*g).len(),
{
    g.node_count()
}

/// Relies on `petgraph::graph::Graph::edge_references`: the edges in
/// insertion order, each as its endpoints' indices.
#[verifier::external_body]
pub fn graph_edge_pairs(g: &Graph<PackageNode, (), Directed, usize>) -> (r: Vec<(usize, usize)>)
    ensures
        r@ == graph_edges(*g),
{
    g.edge_references().map(|e| (e.source().index(), e.target().index())).collect()
}

} // verus!
