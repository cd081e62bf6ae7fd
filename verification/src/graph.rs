use petgraph::graph::NodeIndex;
use petgraph::{Directed, Graph};
use vstd::prelude::*;

verus! {

/// The output graph container is petgraph's adjacency-list graph; the
/// declarations below make its types nameable in verified signatures.  The
/// container is opaque here: nothing is proved about what it stores, only
/// the build plan that feeds it is verified.
#[verifier::external_type_specification]
#[verifier::external_body]
#[verifier::reject_recursive_types(N)]
#[verifier::reject_recursive_types(E)]
#[verifier::reject_recursive_types(Ty)]
#[verifier::reject_recursive_types(Ix)]
pub struct ExGraph<N, E, Ty, Ix>(petgraph::graph::Graph<N, E, Ty, Ix>);

/// Marker type for directed petgraph graphs, declared so that it can stand
/// as a type argument in verified signatures.
#[verifier::external_type_specification]
#[verifier::external_body]
pub struct ExDirected(petgraph::Directed);

/// A fully resolved description of the graph to build: the node payloads in
/// declaration order, and for every edge the positions of its endpoints in
/// that order together with its payload.
pub struct GraphPlan<N, E> {
    /// Node payloads, one per accepted `node` record, in declaration order.
    pub nodes: Vec<N>,
    /// Edges in declaration order: endpoint positions into `nodes`, payload.
    pub edges: Vec<(usize, usize, E)>,
}

impl<N, E> GraphPlan<N, E> {
    /// Every edge endpoint is the position of a declared node, and the
    /// counts fit the graph container's index type.
    pub open spec fn buildable(self) -> bool {
        &&& self.nodes@.len() < 0xFFFF_FFFFusize
        &&& self.edges@.len() < 0xFFFF_FFFFusize
        &&& forall|k: int|
            0 <= k < self.edges@.len() ==> #[trigger] self.edges@[k].0 < self.nodes@.len()
                && self.edges@[k].1 < self.nodes@.len()
    }
}

/// Pours a finished plan into the external graph container.
///
/// Relies on petgraph's `Graph::new`, `Graph::add_node` and `Graph::add_edge`:
/// nodes added to a fresh graph receive the indices 0, 1, 2, ... in insertion
/// order, and `add_edge` inserts one directed edge between the two given node
/// indices.  The `buildable` bound rules out every input on which petgraph
/// panics: `add_node` refuses a graph holding `u32::MAX` nodes, `add_edge`
/// refuses `u32::MAX` edges or an endpoint index with no node behind it.
#[verifier::external_body]
pub fn build_graph<N, E>(plan: GraphPlan<N, E>) -> Graph<N, E, Directed>
    requires
        plan.buildable(),
{
    let mut graph = Graph::new();
    for weight in plan.nodes {
        graph.add_node(weight);
    }
    for (source, target, weight) in plan.edges {
        graph.add_edge(NodeIndex::new(source), NodeIndex::new(target), weight);
    }
    graph
}

} // verus!
