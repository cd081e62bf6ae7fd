//! Parser for a bracketed graph-description notation.
//!
//! The notation describes one directed graph as a sequence of `node` and
//! `edge` records inside a `graph` section.  An external tokenizer and
//! generic tree parser (the `asexp` crate) turn the text into a nested
//! scalar/list/map structure; the schema interpreter in this crate walks
//! that structure, enforces the notation's rules, and populates a directed
//! graph (a `petgraph` container) whose node and edge payloads are produced
//! by caller-supplied weight-mapping functions.

use vstd::prelude::*;

pub mod error;
pub mod graph;
pub mod interp;
pub mod laws;
pub mod parse;
pub mod record;
pub mod semantics;
pub mod value;

use crate::error::GmlError;
use crate::interp::{demand_denied, demands_granted, denial_error, interpret};
use crate::parse::{parse_text, parsed_doc};
use crate::semantics::{doc_scan, edge_weights, node_weights};
use crate::value::GmlValue;

verus! {

/// When the text-to-graph conversion hands back a graph: the structural
/// walk accepted the document, every weight demand was answerable, and the
/// counts fit the graph container.
pub open spec fn graph_ok_post<N, E, NodeWeightFn, EdgeWeightFn>(
    nf: NodeWeightFn,
    ef: EdgeWeightFn,
    doc: GmlValue,
) -> bool where
    NodeWeightFn: Fn(Option<GmlValue>) -> Option<N>,
    EdgeWeightFn: Fn(Option<GmlValue>) -> Option<E>,
 {
    let s = doc_scan(doc);
    &&& s.result is Ok
    &&& demands_granted(nf, ef, s.demands, s.demands.len() as int)
    &&& node_weights(s.demands).len() < 0xFFFF_FFFF
    &&& edge_weights(s.demands).len() < 0xFFFF_FFFF
}

/// When the conversion reports `e` for a parsed document: a mapper declined
/// a demand after all earlier ones were answered; or every demand was
/// answered and the structural walk reports `e`; or the document was
/// accepted whole but overflows the graph container.
pub open spec fn graph_err_post<N, E, NodeWeightFn, EdgeWeightFn>(
    nf: NodeWeightFn,
    ef: EdgeWeightFn,
    doc: GmlValue,
    e: GmlError,
) -> bool where
    NodeWeightFn: Fn(Option<GmlValue>) -> Option<N>,
    EdgeWeightFn: Fn(Option<GmlValue>) -> Option<E>,
 {
    let s = doc_scan(doc);
    ||| exists|j: int|
        {
            &&& 0 <= j < s.demands.len()
            &&& demands_granted(nf, ef, s.demands, j)
            &&& demand_denied(nf, ef, #[trigger] s.demands[j])
            &&& e == denial_error(s.demands[j])
        }
    ||| {
        &&& demands_granted(nf, ef, s.demands, s.demands.len() as int)
        &&& s.result == Err::<Seq<(int, int)>, GmlError>(e)
    }
    ||| {
        &&& demands_granted(nf, ef, s.demands, s.demands.len() as int)
        &&& s.result is Ok
        &&& (node_weights(s.demands).len() >= 0xFFFF_FFFF || edge_weights(s.demands).len()
            >= 0xFFFF_FFFF)
        &&& e == GmlError::GraphTooLarge
    }
}

/// What [`tree_to_graph`] promises for each outcome.
pub open spec fn tree_to_graph_post<N, E, NodeWeightFn, EdgeWeightFn>(
    nf: NodeWeightFn,
    ef: EdgeWeightFn,
    doc: GmlValue,
    r: Result<petgraph::Graph<N, E, petgraph::Directed>, GmlError>,
) -> bool where
    NodeWeightFn: Fn(Option<GmlValue>) -> Option<N>,
    EdgeWeightFn: Fn(Option<GmlValue>) -> Option<E>,
 {
    match r {
        Ok(_) => graph_ok_post(nf, ef, doc),
        Err(e) => graph_err_post(nf, ef, doc, e),
    }
}

/// Interprets a parsed document and pours the accepted plan into the graph
/// container.
pub fn tree_to_graph<N, E, NodeWeightFn, EdgeWeightFn>(
    doc: GmlValue,
    node_weight_fn: &NodeWeightFn,
    edge_weight_fn: &EdgeWeightFn,
) -> (r: Result<petgraph::Graph<N, E, petgraph::Directed>, GmlError>) where
    NodeWeightFn: Fn(Option<GmlValue>) -> Option<N>,
    EdgeWeightFn: Fn(Option<GmlValue>) -> Option<E>,

    requires
        forall|w: Option<GmlValue>| #[trigger] call_requires(*node_weight_fn, (w,)),
        forall|w: Option<GmlValue>| #[trigger] call_requires(*edge_weight_fn, (w,)),
    ensures
        tree_to_graph_post(*node_weight_fn, *edge_weight_fn, doc, r),
{
    let plan = match interpret(doc, node_weight_fn, edge_weight_fn) {
        Ok(plan) => plan,
        Err(e) => {
            return Err(e);
        },
    };
    if plan.nodes.len() >= 0xFFFF_FFFFusize || plan.edges.len() >= 0xFFFF_FFFFusize {
        return Err(GmlError::GraphTooLarge);
    }
    Ok(crate::graph::build_graph(plan))
}

/// What [`parse_gml`] promises: on a text the external parser rejects, the
/// generic document error; otherwise [`tree_to_graph_post`] over the parsed
/// tree, each failure reported as its fixed message string.
pub open spec fn parse_gml_post<N, E, NodeWeightFn, EdgeWeightFn>(
    nf: NodeWeightFn,
    ef: EdgeWeightFn,
    text: Seq<char>,
    r: Result<petgraph::Graph<N, E, petgraph::Directed>, &'static str>,
) -> bool where
    NodeWeightFn: Fn(Option<GmlValue>) -> Option<N>,
    EdgeWeightFn: Fn(Option<GmlValue>) -> Option<E>,
 {
    match parsed_doc(text) {
        None => r matches Err(m) && m@ == GmlError::InvalidDocument.message_spec(),
        Some(doc) => match r {
            Ok(_) => graph_ok_post(nf, ef, doc),
            Err(m) => exists|e: GmlError|
                {
                    &&& #[trigger] e.message_spec() == m@
                    &&& graph_err_post(nf, ef, doc, e)
                },
        },
    }
}

/// Parses a graph-notation text into a directed graph.
///
/// The node-weight and edge-weight mappers receive the optional `weight`
/// sub-tree of each `node` and `edge` record, in declaration order, and
/// produce the payloads of the graph; a mapper that returns no payload
/// fails the whole parse.
pub fn parse_gml<NodeWeightFn, EdgeWeightFn, N, E>(
    s: &str,
    node_weight_fn: &NodeWeightFn,
    edge_weight_fn: &EdgeWeightFn,
) -> (r: Result<petgraph::Graph<N, E, petgraph::Directed>, &'static str>) where
    NodeWeightFn: Fn(Option<GmlValue>) -> Option<N>,
    EdgeWeightFn: Fn(Option<GmlValue>) -> Option<E>,

    requires
        forall|w: Option<GmlValue>| #[trigger] call_requires(*node_weight_fn, (w,)),
        forall|w: Option<GmlValue>| #[trigger] call_requires(*edge_weight_fn, (w,)),
    ensures
        parse_gml_post(*node_weight_fn, *edge_weight_fn, s@, r),
{
    let doc = match parse_text(s) {
        Some(doc) => doc,
        None => {
            return Err(GmlError::InvalidDocument.message());
        },
    };
    match tree_to_graph(doc, node_weight_fn, edge_weight_fn) {
        Ok(g) => Ok(g),
        Err(e) => {
            let m = e.message();
            proof {
                assert(e.message_spec() == m@);
            }
            Err(m)
        },
    }
}

} // verus!
