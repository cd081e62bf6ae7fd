use crate::error::GmlError;
use crate::graph::GraphPlan;
use crate::record::{find_uint, into_record, str_eq, take_field};
use crate::semantics::{
    classify_entry, doc_scan, edge_weights, index_of_id, lemma_index_of_id_first,
    lemma_scan_demands_prefix, lemma_weights_push_edge, lemma_weights_push_node, node_weights,
    resolve_edges, scan_entries, Demand, EntryKind, ScanState,
};
use crate::value::GmlValue;
use vstd::prelude::*;

verus! {

/// The mapper owed this demand can answer it with a payload.
pub open spec fn demand_granted<N, E, NodeWeightFn, EdgeWeightFn>(
    nf: NodeWeightFn,
    ef: EdgeWeightFn,
    d: Demand,
) -> bool where
    NodeWeightFn: Fn(Option<GmlValue>) -> Option<N>,
    EdgeWeightFn: Fn(Option<GmlValue>) -> Option<E>,
 {
    match d {
        Demand::Node(w) => exists|p: N| call_ensures(nf, (w,), Some(p)),
        Demand::Edge(w) => exists|p: E| call_ensures(ef, (w,), Some(p)),
    }
}

/// Every demand before `upto` can be answered with a payload.
pub open spec fn demands_granted<N, E, NodeWeightFn, EdgeWeightFn>(
    nf: NodeWeightFn,
    ef: EdgeWeightFn,
    demands: Seq<Demand>,
    upto: int,
) -> bool where
    NodeWeightFn: Fn(Option<GmlValue>) -> Option<N>,
    EdgeWeightFn: Fn(Option<GmlValue>) -> Option<E>,
 {
    forall|i: int| 0 <= i < upto ==> demand_granted(nf, ef, #[trigger] demands[i])
}

/// The mapper owed this demand can decline it.
pub open spec fn demand_denied<N, E, NodeWeightFn, EdgeWeightFn>(
    nf: NodeWeightFn,
    ef: EdgeWeightFn,
    d: Demand,
) -> bool where
    NodeWeightFn: Fn(Option<GmlValue>) -> Option<N>,
    EdgeWeightFn: Fn(Option<GmlValue>) -> Option<E>,
 {
    match d {
        Demand::Node(w) => call_ensures(nf, (w,), Option::<N>::None),
        Demand::Edge(w) => call_ensures(ef, (w,), Option::<E>::None),
    }
}

/// The error reported when a demand is declined.
pub open spec fn denial_error(d: Demand) -> GmlError {
    match d {
        Demand::Node(_) => GmlError::InvalidNodeWeight,
        Demand::Edge(_) => GmlError::InvalidEdgeWeight,
    }
}

/// What [`interpret`] promises.  On success the structural walk accepted the
/// document, the plan holds one payload per `node` record in declaration
/// order, each a possible answer of the node-weight mapper on that record's
/// weight sub-tree, and likewise one payload and the resolved endpoint
/// positions per `edge` record.  On failure, either some mapper declined a
/// demand after every earlier demand was answered — reported as the matching
/// weight error — or every demand was answered and the structural walk
/// itself reports the error.
pub open spec fn interpret_post<N, E, NodeWeightFn, EdgeWeightFn>(
    nf: NodeWeightFn,
    ef: EdgeWeightFn,
    doc: GmlValue,
    r: Result<GraphPlan<N, E>, GmlError>,
) -> bool where
    NodeWeightFn: Fn(Option<GmlValue>) -> Option<N>,
    EdgeWeightFn: Fn(Option<GmlValue>) -> Option<E>,
 {
    let s = doc_scan(doc);
    let nws = node_weights(s.demands);
    let ews = edge_weights(s.demands);
    match r {
        Ok(plan) => {
            &&& s.result is Ok
            &&& demands_granted(nf, ef, s.demands, s.demands.len() as int)
            &&& plan.nodes@.len() == nws.len()
            &&& forall|i: int|
                0 <= i < nws.len() ==> call_ensures(nf, (nws[i],), Some(#[trigger] plan.nodes@[i]))
            &&& plan.edges@.len() == ews.len()
            &&& s.result->Ok_0.len() == ews.len()
            &&& forall|k: int|
                0 <= k < ews.len() ==> call_ensures(
                    ef,
                    (ews[k],),
                    Some((#[trigger] plan.edges@[k]).2),
                )
            &&& forall|k: int|
                0 <= k < ews.len() ==> (#[trigger] plan.edges@[k]).0 as int == s.result->Ok_0[k].0
                    && plan.edges@[k].1 as int == s.result->Ok_0[k].1
            &&& forall|k: int|
                0 <= k < ews.len() ==> (#[trigger] plan.edges@[k]).0 < plan.nodes@.len()
                    && plan.edges@[k].1 < plan.nodes@.len()
        },
        Err(e) => {
            ||| exists|j: int|
                {
                    &&& 0 <= j < s.demands.len()
                    &&& demands_granted(nf, ef, s.demands, j)
                    &&& demand_denied(nf, ef, #[trigger] s.demands[j])
                    &&& e == denial_error(s.demands[j])
                }
            ||| {
                &&& demands_granted(nf, ef, s.demands, s.demands.len() as int)
                &&& s.result == Err::<Seq<(int, int)>, GmlError>(e)
            }
        },
    }
}

/// Whether `ids` already holds `id`.
fn contains_id(ids: &Vec<u64>, id: u64) -> (r: bool)
    ensures
        r == ids@.contains(id),
{
    let mut i: usize = 0;
    while i < ids.len()
        invariant
            0 <= i <= ids@.len(),
            forall|j: int| 0 <= j < i ==> ids@[j] != id,
        decreases ids@.len() - i,
    {
        if ids[i] == id {
            assert(ids@.contains(id));
            return true;
        }
        i += 1;
    }
    proof {
        assert forall|j: int| 0 <= j < ids@.len() implies ids@[j] != id by {}
        assert(!ids@.contains(id));
    }
    false
}

/// The position of the first occurrence of `id` in `ids`, where it has one.
fn position_of_id(ids: &Vec<u64>, id: u64) -> (r: Option<usize>)
    ensures
        match r {
            Some(i) => ids@.contains(id) && i as int == index_of_id(ids@, id) && (i as int)
                < ids@.len(),
            None => !ids@.contains(id),
        },
{
    let mut i: usize = 0;
    while i < ids.len()
        invariant
            0 <= i <= ids@.len(),
            forall|j: int| 0 <= j < i ==> ids@[j] != id,
        decreases ids@.len() - i,
    {
        if ids[i] == id {
            proof {
                lemma_index_of_id_first(ids@, id, i as int);
            }
            return Some(i);
        }
        i += 1;
    }
    proof {
        assert forall|j: int| 0 <= j < ids@.len() implies ids@[j] != id by {}
        assert(!ids@.contains(id));
    }
    None
}

/// The edge endpoint positions of a finished plan, as the spec states them.
pub open spec fn edge_positions<E>(edges: Seq<(usize, usize, E)>) -> Seq<(int, int)> {
    edges.map_values(|t: (usize, usize, E)| (t.0 as int, t.1 as int))
}

/// The schema interpreter: walks a parsed document once, in declaration
/// order, checking the structure of every entry and consulting the two
/// weight mappers as it goes, then resolves every buffered edge against the
/// declared node identifiers.  Yields the finished build plan, or the first
/// error of the walk.
#[verifier::loop_isolation(false)]
pub fn interpret<N, E, NodeWeightFn, EdgeWeightFn>(
    doc: GmlValue,
    node_weight_fn: &NodeWeightFn,
    edge_weight_fn: &EdgeWeightFn,
) -> (r: Result<GraphPlan<N, E>, GmlError>) where
    NodeWeightFn: Fn(Option<GmlValue>) -> Option<N>,
    EdgeWeightFn: Fn(Option<GmlValue>) -> Option<E>,

    requires
        forall|w: Option<GmlValue>| #[trigger] call_requires(*node_weight_fn, (w,)),
        forall|w: Option<GmlValue>| #[trigger] call_requires(*edge_weight_fn, (w,)),
    ensures
        interpret_post(*node_weight_fn, *edge_weight_fn, doc, r),
{
    let ghost sc = doc_scan(doc);

    let fields = match into_record(doc) {
        Ok(fields) => fields,
        Err(e) => {
            return Err(e);
        },
    };
    let mut entries = match take_field(fields, "graph") {
        Some(GmlValue::Dict(entries)) => entries,
        _ => {
            return Err(GmlError::NoGraph);
        },
    };

    let ghost mut demands: Seq<Demand> = Seq::empty();
    let mut ids: Vec<u64> = Vec::new();
    let mut nodes: Vec<N> = Vec::new();
    let mut eids: Vec<(u64, u64)> = Vec::new();
    let mut eweights: Vec<E> = Vec::new();
    let mut directed = false;

    proof {
        assert(scan_entries(
            ScanState { demands, ids: ids@, eids: eids@, directed },
            entries@,
        ) == sc);
    }

    while entries.len() > 0
        invariant
            scan_entries(ScanState { demands, ids: ids@, eids: eids@, directed }, entries@) == sc,
            demands_granted(*node_weight_fn, *edge_weight_fn, demands, demands.len() as int),
            nodes@.len() == node_weights(demands).len(),
            ids@.len() == nodes@.len(),
            forall|i: int|
                0 <= i < nodes@.len() ==> call_ensures(
                    *node_weight_fn,
                    (node_weights(demands)[i],),
                    Some(#[trigger] nodes@[i]),
                ),
            eweights@.len() == edge_weights(demands).len(),
            eids@.len() == eweights@.len(),
            forall|i: int|
                0 <= i < eweights@.len() ==> call_ensures(
                    *edge_weight_fn,
                    (edge_weights(demands)[i],),
                    Some(#[trigger] eweights@[i]),
                ),
        decreases entries@.len(),
    {
        let ghost entries_prev = entries@;
        let ghost st_prev = ScanState { demands, ids: ids@, eids: eids@, directed };
        let (key, val) = entries.remove(0);
        proof {
            assert(entries@ =~= entries_prev.subrange(1, entries_prev.len() as int));
            assert(entries_prev[0] == (key, val));
        }
        let key_str = match key {
            GmlValue::Str(s) => s,
            _ => {
                proof {
                    assert(classify_entry(entries_prev[0].0, entries_prev[0].1) == Err::<
                        EntryKind,
                        _,
                    >(GmlError::InvalidItem));
                }
                return Err(GmlError::InvalidItem);
            },
        };
        if str_eq(key_str.as_str(), "directed") {
            let ok = match &val {
                GmlValue::Uint(u) => *u == 1,
                _ => false,
            };
            if !ok {
                proof {
                    assert(val != GmlValue::Uint(1u64));
                    assert(classify_entry(entries_prev[0].0, entries_prev[0].1) == Err::<
                        EntryKind,
                        _,
                    >(GmlError::NotDirected));
                }
                return Err(GmlError::NotDirected);
            }
            proof {
                assert(val == GmlValue::Uint(1u64));
                assert(classify_entry(entries_prev[0].0, entries_prev[0].1) == Ok::<_, GmlError>(
                    EntryKind::Directed,
                ));
            }
            directed = true;
        } else if str_eq(key_str.as_str(), "node") {
            let ghost val0 = val;
            let record = match into_record(val) {
                Ok(record) => record,
                Err(e) => {
                    proof {
                        assert(classify_entry(entries_prev[0].0, entries_prev[0].1) == Err::<
                            EntryKind,
                            _,
                        >(e));
                    }
                    return Err(e);
                },
            };
            let id = match find_uint(&record, "id") {
                Some(id) => id,
                None => {
                    proof {
                        assert(classify_entry(entries_prev[0].0, entries_prev[0].1) == Err::<
                            EntryKind,
                            _,
                        >(GmlError::InvalidId));
                    }
                    return Err(GmlError::InvalidId);
                },
            };
            let weight = take_field(record, "weight");
            let ghost wg = weight;
            proof {
                assert(classify_entry(entries_prev[0].0, entries_prev[0].1) == Ok::<_, GmlError>(
                    EntryKind::Node { id, weight: wg },
                ));
                lemma_weights_push_node(demands, wg);
            }
            let answer = (node_weight_fn)(weight);
            proof {
                demands = demands.push(Demand::Node(wg));
            }
            let payload = match answer {
                Some(payload) => payload,
                None => {
                    proof {
                        let ghost j = demands.len() - 1;
                        if st_prev.ids.contains(id) {
                            assert(sc.demands == demands);
                        } else {
                            lemma_scan_demands_prefix(
                                ScanState {
                                    demands,
                                    ids: ids@.push(id),
                                    eids: eids@,
                                    directed,
                                },
                                entries@,
                            );
                        }
                        assert(demands.is_prefix_of(sc.demands));
                        assert(sc.demands[j] == Demand::Node(wg));
                        assert(demand_denied(*node_weight_fn, *edge_weight_fn, sc.demands[j]));
                        assert forall|i: int|
                            0 <= i < j implies demand_granted(
                            *node_weight_fn,
                            *edge_weight_fn,
                            #[trigger] sc.demands[i],
                        ) by {
                            assert(demand_granted(
                                *node_weight_fn,
                                *edge_weight_fn,
                                st_prev.demands[i],
                            ));
                            assert(demands[i] == st_prev.demands[i]);
                            assert(sc.demands[i] == demands[i]);
                        }
                        assert(demands_granted(*node_weight_fn, *edge_weight_fn, sc.demands, j));
                    }
                    return Err(GmlError::InvalidNodeWeight);
                },
            };
            if contains_id(&ids, id) {
                proof {
                    assert(sc.demands == demands);
                    assert(sc.result == Err::<Seq<(int, int)>, _>(GmlError::DuplicateNodeId));
                    assert(demand_granted(
                        *node_weight_fn,
                        *edge_weight_fn,
                        Demand::Node(wg),
                    )) by {
                        assert(call_ensures(*node_weight_fn, (wg,), Some(payload)));
                    }
                    assert(demands_granted(
                        *node_weight_fn,
                        *edge_weight_fn,
                        sc.demands,
                        sc.demands.len() as int,
                    ));
                }
                return Err(GmlError::DuplicateNodeId);
            }
            ids.push(id);
            nodes.push(payload);
        } else if str_eq(key_str.as_str(), "edge") {
            let record = match into_record(val) {
                Ok(record) => record,
                Err(e) => {
                    proof {
                        assert(classify_entry(entries_prev[0].0, entries_prev[0].1) == Err::<
                            EntryKind,
                            _,
                        >(e));
                    }
                    return Err(e);
                },
            };
            let source = match find_uint(&record, "source") {
                Some(source) => source,
                None => {
                    proof {
                        assert(classify_entry(entries_prev[0].0, entries_prev[0].1) == Err::<
                            EntryKind,
                            _,
                        >(GmlError::InvalidSourceId));
                    }
                    return Err(GmlError::InvalidSourceId);
                },
            };
            let target = match find_uint(&record, "target") {
                Some(target) => target,
                None => {
                    proof {
                        assert(classify_entry(entries_prev[0].0, entries_prev[0].1) == Err::<
                            EntryKind,
                            _,
                        >(GmlError::InvalidTargetId));
                    }
                    return Err(GmlError::InvalidTargetId);
                },
            };
            let weight = take_field(record, "weight");
            let ghost wg = weight;
            proof {
                assert(classify_entry(entries_prev[0].0, entries_prev[0].1) == Ok::<_, GmlError>(
                    EntryKind::Edge { source, target, weight: wg },
                ));
                lemma_weights_push_edge(demands, wg);
            }
            let answer = (edge_weight_fn)(weight);
            proof {
                demands = demands.push(Demand::Edge(wg));
            }
            let payload = match answer {
                Some(payload) => payload,
                None => {
                    proof {
                        let ghost j = demands.len() - 1;
                        lemma_scan_demands_prefix(
                            ScanState {
                                demands,
                                ids: ids@,
                                eids: eids@.push((source, target)),
                                directed,
                            },
                            entries@,
                        );
                        assert(demands.is_prefix_of(sc.demands));
                        assert(sc.demands[j] == Demand::Edge(wg));
                        assert(demand_denied(*node_weight_fn, *edge_weight_fn, sc.demands[j]));
                        assert forall|i: int|
                            0 <= i < j implies demand_granted(
                            *node_weight_fn,
                            *edge_weight_fn,
                            #[trigger] sc.demands[i],
                        ) by {
                            assert(demand_granted(
                                *node_weight_fn,
                                *edge_weight_fn,
                                st_prev.demands[i],
                            ));
                            assert(demands[i] == st_prev.demands[i]);
                            assert(sc.demands[i] == demands[i]);
                        }
                        assert(demands_granted(*node_weight_fn, *edge_weight_fn, sc.demands, j));
                    }
                    return Err(GmlError::InvalidEdgeWeight);
                },
            };
            eids.push((source, target));
            eweights.push(payload);
        } else {
            proof {
                assert(classify_entry(entries_prev[0].0, entries_prev[0].1) == Err::<
                    EntryKind,
                    _,
                >(GmlError::InvalidItem));
            }
            return Err(GmlError::InvalidItem);
        }
    }

    proof {
        assert(sc.demands == demands);
        assert(sc.ids == ids@);
        assert(sc.eids == eids@);
    }

    if !directed {
        proof {
            assert(sc.result == Err::<Seq<(int, int)>, _>(GmlError::NotDirected));
        }
        return Err(GmlError::NotDirected);
    }

    proof {
        assert(sc.result == resolve_edges(ids@, eids@));
    }

    let mut edges: Vec<(usize, usize, E)> = Vec::new();
    let ghost ews = edge_weights(demands);
    proof {
        assert(edge_positions(edges@) =~= Seq::<(int, int)>::empty());
        assert(edge_positions(edges@) + resolve_edges(ids@, eids@)->Ok_0 =~= resolve_edges(
            ids@,
            eids@,
        )->Ok_0);
    }

    while eids.len() > 0
        invariant
            edges@.len() + eids@.len() == ews.len(),
            eweights@.len() == eids@.len(),
            (match resolve_edges(ids@, eids@) {
                Ok(rest) => sc.result == Ok::<_, GmlError>(edge_positions(edges@) + rest),
                Err(e) => sc.result == Err::<Seq<(int, int)>, _>(e),
            }),
            forall|k: int|
                0 <= k < edges@.len() ==> call_ensures(
                    *edge_weight_fn,
                    (ews[k],),
                    Some((#[trigger] edges@[k]).2),
                ),
            forall|k: int|
                0 <= k < edges@.len() ==> (#[trigger] edges@[k]).0 < nodes@.len()
                    && edges@[k].1 < nodes@.len(),
            forall|i: int|
                0 <= i < eweights@.len() ==> call_ensures(
                    *edge_weight_fn,
                    (ews[edges@.len() + i],),
                    Some(#[trigger] eweights@[i]),
                ),
        decreases eids@.len(),
    {
        let ghost eids_prev = eids@;
        let ghost eweights_prev = eweights@;
        let ghost edges_prev = edges@;
        let (source, target) = eids.remove(0);
        let weight = eweights.remove(0);
        proof {
            assert(eids@ =~= eids_prev.subrange(1, eids_prev.len() as int));
            assert(eweights@ =~= eweights_prev.subrange(1, eweights_prev.len() as int));
            assert(eids_prev[0] == (source, target));
            assert(eweights_prev[0] == weight);
        }
        let source_pos = match position_of_id(&ids, source) {
            Some(pos) => pos,
            None => {
                proof {
                    assert(resolve_edges(ids@, eids_prev) == Err::<Seq<(int, int)>, _>(
                        GmlError::UnknownSourceId,
                    ));
                }
                return Err(GmlError::UnknownSourceId);
            },
        };
        let target_pos = match position_of_id(&ids, target) {
            Some(pos) => pos,
            None => {
                proof {
                    assert(resolve_edges(ids@, eids_prev) == Err::<Seq<(int, int)>, _>(
                        GmlError::UnknownTargetId,
                    ));
                }
                return Err(GmlError::UnknownTargetId);
            },
        };
        edges.push((source_pos, target_pos, weight));
        proof {
            assert(edges@ =~= edges_prev.push((source_pos, target_pos, weight)));
            assert(edge_positions(edges@) =~= edge_positions(edges_prev).push(
                (source_pos as int, target_pos as int),
            ));
            if resolve_edges(ids@, eids@) is Ok {
                let rest = resolve_edges(ids@, eids@)->Ok_0;
                assert(resolve_edges(ids@, eids_prev) == Ok::<_, GmlError>(
                    seq![(index_of_id(ids@, source), index_of_id(ids@, target))] + rest,
                ));
                assert(edge_positions(edges_prev) + (seq![
                    (source_pos as int, target_pos as int),
                ] + rest) =~= edge_positions(edges@) + rest);
            }
        }
    }

    proof {
        assert(resolve_edges(ids@, eids@) == Ok::<_, GmlError>(Seq::<(int, int)>::empty()));
        assert(edge_positions(edges@) + Seq::<(int, int)>::empty() =~= edge_positions(edges@));
        assert(sc.result == Ok::<_, GmlError>(edge_positions(edges@)));
    }
    Ok(GraphPlan { nodes, edges })
}

} // verus!
