use crate::error::GmlError;
use crate::semantics::{
    classify_entry, doc_scan, edge_weights, graph_entries, index_of_id, init_state, Demand,
    lemma_index_of_id_bounds, lemma_weights_push_edge, lemma_weights_push_node, node_weights,
    resolve_edges, scan_entries, EntryKind, ScanState,
};
use crate::value::GmlValue;
use vstd::prelude::*;

verus! {

/// No identifier occurs twice.
pub open spec fn distinct_ids(ids: Seq<u64>) -> bool {
    forall|i: int, j: int| 0 <= i < j < ids.len() ==> ids[i] != ids[j]
}

/// The identifier a graph-section entry declares, where it is an accepted
/// `node` record.
pub open spec fn declared_node_id(key: GmlValue, val: GmlValue) -> Option<u64> {
    match classify_entry(key, val) {
        Ok(EntryKind::Node { id, weight: _ }) => Some(id),
        _ => None,
    }
}

/// Whether an entry key is the word `directed`.
pub open spec fn is_directed_key(key: GmlValue) -> bool {
    key matches GmlValue::Str(s) && s@ == "directed"@
}

/// Where the document has a graph section, its structural interpretation is
/// the walk over that section's entries.
proof fn lemma_doc_scan_unfolds(doc: GmlValue)
    requires
        graph_entries(doc) is Some,
    ensures
        doc_scan(doc) == scan_entries(init_state(), graph_entries(doc)->Some_0),
{
}

proof fn lemma_scan_ids_distinct_from(st: ScanState, entries: Seq<(GmlValue, GmlValue)>)
    requires
        distinct_ids(st.ids),
    ensures
        distinct_ids(scan_entries(st, entries).ids),
    decreases entries.len(),
{
    if entries.len() == 0 {
    } else {
        let rest = entries.subrange(1, entries.len() as int);
        match classify_entry(entries[0].0, entries[0].1) {
            Err(_) => {},
            Ok(EntryKind::Directed) => {
                lemma_scan_ids_distinct_from(
                    ScanState { demands: st.demands, ids: st.ids, eids: st.eids, directed: true },
                    rest,
                );
            },
            Ok(EntryKind::Node { id, weight }) => {
                if st.ids.contains(id) {
                } else {
                    let ids2 = st.ids.push(id);
                    assert forall|i: int, j: int| 0 <= i < j < ids2.len() implies ids2[i]
                        != ids2[j] by {
                        if j == st.ids.len() {
                            if st.ids[i] == id {
                                assert(st.ids.contains(id));
                            }
                        }
                    }
                    lemma_scan_ids_distinct_from(
                        ScanState {
                            demands: st.demands.push(Demand::Node(weight)),
                            ids: ids2,
                            eids: st.eids,
                            directed: st.directed,
                        },
                        rest,
                    );
                }
            },
            Ok(EntryKind::Edge { source, target, weight }) => {
                lemma_scan_ids_distinct_from(
                    ScanState {
                        demands: st.demands.push(Demand::Edge(weight)),
                        ids: st.ids,
                        eids: st.eids.push((source, target)),
                        directed: st.directed,
                    },
                    rest,
                );
            },
        }
    }
}

/// The node identifiers a walk accepts are distinct — a duplicate stops the
/// walk before its identifier is recorded.
pub proof fn lemma_accepted_ids_distinct(doc: GmlValue)
    ensures
        distinct_ids(doc_scan(doc).ids),
{
    if graph_entries(doc) is Some {
        lemma_doc_scan_unfolds(doc);
        lemma_scan_ids_distinct_from(init_state(), graph_entries(doc)->Some_0);
    } else {
        assert(doc_scan(doc).ids =~= Seq::<u64>::empty());
    }
}

proof fn lemma_node_id_already_declared(
    st: ScanState,
    entries: Seq<(GmlValue, GmlValue)>,
    k: int,
)
    requires
        0 <= k < entries.len(),
        declared_node_id(entries[k].0, entries[k].1) is Some,
        st.ids.contains(declared_node_id(entries[k].0, entries[k].1)->Some_0),
    ensures
        scan_entries(st, entries).result is Err,
    decreases entries.len(),
{
    let rest = entries.subrange(1, entries.len() as int);
    let nid = declared_node_id(entries[k].0, entries[k].1)->Some_0;
    match classify_entry(entries[0].0, entries[0].1) {
        Err(_) => {},
        Ok(EntryKind::Directed) => {
            assert(k > 0);
            lemma_node_id_already_declared(
                ScanState { demands: st.demands, ids: st.ids, eids: st.eids, directed: true },
                rest,
                k - 1,
            );
        },
        Ok(EntryKind::Node { id, weight }) => {
            if st.ids.contains(id) {
            } else {
                assert(k > 0) by {
                    if k == 0 {
                        assert(id == nid);
                    }
                }
                let ids2 = st.ids.push(id);
                assert(ids2.contains(nid)) by {
                    let w = choose|w: int| 0 <= w < st.ids.len() && st.ids[w] == nid;
                    assert(ids2[w] == nid);
                }
                lemma_node_id_already_declared(
                    ScanState {
                        demands: st.demands.push(Demand::Node(weight)),
                        ids: ids2,
                        eids: st.eids,
                        directed: st.directed,
                    },
                    rest,
                    k - 1,
                );
            }
        },
        Ok(EntryKind::Edge { source, target, weight }) => {
            assert(k > 0);
            lemma_node_id_already_declared(
                ScanState {
                    demands: st.demands.push(Demand::Edge(weight)),
                    ids: st.ids,
                    eids: st.eids.push((source, target)),
                    directed: st.directed,
                },
                rest,
                k - 1,
            );
        },
    }
}

proof fn lemma_duplicate_rejected_from(
    st: ScanState,
    entries: Seq<(GmlValue, GmlValue)>,
    k1: int,
    k2: int,
)
    requires
        0 <= k1 < k2 < entries.len(),
        declared_node_id(entries[k1].0, entries[k1].1) is Some,
        declared_node_id(entries[k2].0, entries[k2].1) == declared_node_id(
            entries[k1].0,
            entries[k1].1,
        ),
    ensures
        scan_entries(st, entries).result is Err,
    decreases entries.len(),
{
    let rest = entries.subrange(1, entries.len() as int);
    match classify_entry(entries[0].0, entries[0].1) {
        Err(_) => {},
        Ok(EntryKind::Directed) => {
            assert(k1 > 0);
            lemma_duplicate_rejected_from(
                ScanState { demands: st.demands, ids: st.ids, eids: st.eids, directed: true },
                rest,
                k1 - 1,
                k2 - 1,
            );
        },
        Ok(EntryKind::Node { id, weight }) => {
            if st.ids.contains(id) {
            } else {
                let ids2 = st.ids.push(id);
                let st2 = ScanState {
                    demands: st.demands.push(Demand::Node(weight)),
                    ids: ids2,
                    eids: st.eids,
                    directed: st.directed,
                };
                if k1 == 0 {
                    assert(id == declared_node_id(entries[k1].0, entries[k1].1)->Some_0);
                    assert(ids2.contains(id)) by {
                        assert(ids2[st.ids.len() as int] == id);
                    }
                    lemma_node_id_already_declared(st2, rest, k2 - 1);
                } else {
                    lemma_duplicate_rejected_from(st2, rest, k1 - 1, k2 - 1);
                }
            }
        },
        Ok(EntryKind::Edge { source, target, weight }) => {
            assert(k1 > 0);
            lemma_duplicate_rejected_from(
                ScanState {
                    demands: st.demands.push(Demand::Edge(weight)),
                    ids: st.ids,
                    eids: st.eids.push((source, target)),
                    directed: st.directed,
                },
                rest,
                k1 - 1,
                k2 - 1,
            );
        },
    }
}

/// Two `node` entries declaring the same identifier are rejected, however
/// many entries of whatever kind stand before them.
pub proof fn lemma_duplicate_node_id_rejected(doc: GmlValue, k1: int, k2: int)
    requires
        graph_entries(doc) is Some,
        0 <= k1 < k2 < graph_entries(doc)->Some_0.len(),
        declared_node_id(graph_entries(doc)->Some_0[k1].0, graph_entries(doc)->Some_0[k1].1)
            is Some,
        declared_node_id(graph_entries(doc)->Some_0[k2].0, graph_entries(doc)->Some_0[k2].1)
            == declared_node_id(
            graph_entries(doc)->Some_0[k1].0,
            graph_entries(doc)->Some_0[k1].1,
        ),
    ensures
        doc_scan(doc).result is Err,
{
    lemma_doc_scan_unfolds(doc);
    lemma_duplicate_rejected_from(init_state(), graph_entries(doc)->Some_0, k1, k2);
}

proof fn lemma_scan_directed_from(st: ScanState, entries: Seq<(GmlValue, GmlValue)>)
    ensures
        scan_entries(st, entries).result is Ok ==> st.directed || exists|k: int|
            0 <= k < entries.len() && #[trigger] classify_entry(entries[k].0, entries[k].1)
                == Ok::<EntryKind, GmlError>(EntryKind::Directed),
        scan_entries(st, entries).result is Ok ==> forall|k: int|
            0 <= k < entries.len() && is_directed_key(#[trigger] entries[k].0) ==> entries[k].1
                == GmlValue::Uint(1u64),
    decreases entries.len(),
{
    if entries.len() == 0 {
    } else {
        let rest = entries.subrange(1, entries.len() as int);
        match classify_entry(entries[0].0, entries[0].1) {
            Err(_) => {},
            Ok(EntryKind::Directed) => {
                let st2 = ScanState {
                    demands: st.demands,
                    ids: st.ids,
                    eids: st.eids,
                    directed: true,
                };
                lemma_scan_directed_from(st2, rest);
                if scan_entries(st, entries).result is Ok {
                    assert(classify_entry(entries[0].0, entries[0].1) == Ok::<
                        EntryKind,
                        GmlError,
                    >(EntryKind::Directed));
                    assert forall|k: int|
                        0 <= k < entries.len() && is_directed_key(
                            #[trigger] entries[k].0,
                        ) implies entries[k].1 == GmlValue::Uint(1u64) by {
                        if k == 0 {
                        } else {
                            assert(rest[k - 1] == entries[k]);
                        }
                    }
                }
            },
            Ok(EntryKind::Node { id, weight }) => {
                if st.ids.contains(id) {
                } else {
                    let st2 = ScanState {
                        demands: st.demands.push(Demand::Node(weight)),
                        ids: st.ids.push(id),
                        eids: st.eids,
                        directed: st.directed,
                    };
                    lemma_scan_directed_from(st2, rest);
                    lemma_scan_directed_tail(st, entries, st2, rest);
                }
            },
            Ok(EntryKind::Edge { source, target, weight }) => {
                let st2 = ScanState {
                    demands: st.demands.push(Demand::Edge(weight)),
                    ids: st.ids,
                    eids: st.eids.push((source, target)),
                    directed: st.directed,
                };
                lemma_scan_directed_from(st2, rest);
                lemma_scan_directed_tail(st, entries, st2, rest);
            },
        }
    }
}

/// Shared step: lifts both directedness facts from the remaining entries to
/// the whole list, for a first entry that is no `directed` declaration but
/// keeps the walk going with the same `directed` flag.
proof fn lemma_scan_directed_tail(
    st: ScanState,
    entries: Seq<(GmlValue, GmlValue)>,
    st2: ScanState,
    rest: Seq<(GmlValue, GmlValue)>,
)
    requires
        entries.len() > 0,
        rest == entries.subrange(1, entries.len() as int),
        st2.directed == st.directed,
        scan_entries(st, entries) == scan_entries(st2, rest),
        !(classify_entry(entries[0].0, entries[0].1) matches Ok(EntryKind::Directed)),
        classify_entry(entries[0].0, entries[0].1) is Ok,
        scan_entries(st2, rest).result is Ok ==> st2.directed || exists|k: int|
            0 <= k < rest.len() && #[trigger] classify_entry(rest[k].0, rest[k].1) == Ok::<
                EntryKind,
                GmlError,
            >(EntryKind::Directed),
        scan_entries(st2, rest).result is Ok ==> forall|k: int|
            0 <= k < rest.len() && is_directed_key(#[trigger] rest[k].0) ==> rest[k].1
                == GmlValue::Uint(1u64),
    ensures
        scan_entries(st, entries).result is Ok ==> st.directed || exists|k: int|
            0 <= k < entries.len() && #[trigger] classify_entry(entries[k].0, entries[k].1)
                == Ok::<EntryKind, GmlError>(EntryKind::Directed),
        scan_entries(st, entries).result is Ok ==> forall|k: int|
            0 <= k < entries.len() && is_directed_key(#[trigger] entries[k].0) ==> entries[k].1
                == GmlValue::Uint(1u64),
{
    if scan_entries(st, entries).result is Ok {
        if !st.directed {
            let k0 = choose|k: int|
                0 <= k < rest.len() && #[trigger] classify_entry(rest[k].0, rest[k].1) == Ok::<
                    EntryKind,
                    GmlError,
                >(EntryKind::Directed);
            assert(entries[k0 + 1] == rest[k0]);
            assert(classify_entry(entries[k0 + 1].0, entries[k0 + 1].1) == Ok::<
                EntryKind,
                GmlError,
            >(EntryKind::Directed));
        }
        assert forall|k: int|
            0 <= k < entries.len() && is_directed_key(#[trigger] entries[k].0) implies entries[k].1
            == GmlValue::Uint(1u64) by {
            if k == 0 {
                assert(classify_entry(entries[0].0, entries[0].1) is Ok);
                if entries[0].1 != GmlValue::Uint(1u64) {
                    assert(classify_entry(entries[0].0, entries[0].1) == Err::<
                        EntryKind,
                        GmlError,
                    >(GmlError::NotDirected));
                }
            } else {
                assert(rest[k - 1] == entries[k]);
            }
        }
    }
}

/// A document the walk accepts has a `directed 1` entry, and every entry
/// keyed `directed` carries the value `1` — a `directed 0` document, or one
/// with no `directed` entry at all, is rejected.
pub proof fn lemma_directedness_required(doc: GmlValue)
    requires
        doc_scan(doc).result is Ok,
    ensures
        graph_entries(doc) is Some,
        exists|k: int|
            0 <= k < graph_entries(doc)->Some_0.len() && #[trigger] classify_entry(
                graph_entries(doc)->Some_0[k].0,
                graph_entries(doc)->Some_0[k].1,
            ) == Ok::<EntryKind, GmlError>(EntryKind::Directed),
        forall|k: int|
            0 <= k < graph_entries(doc)->Some_0.len() && is_directed_key(
                #[trigger] graph_entries(doc)->Some_0[k].0,
            ) ==> graph_entries(doc)->Some_0[k].1 == GmlValue::Uint(1u64),
{
    assert(graph_entries(doc) is Some);
    lemma_doc_scan_unfolds(doc);
    lemma_scan_directed_from(init_state(), graph_entries(doc)->Some_0);
}

proof fn lemma_resolve_edges_len(ids: Seq<u64>, eids: Seq<(u64, u64)>)
    requires
        resolve_edges(ids, eids) is Ok,
    ensures
        resolve_edges(ids, eids)->Ok_0.len() == eids.len(),
    decreases eids.len(),
{
    if eids.len() == 0 {
    } else {
        lemma_resolve_edges_len(ids, eids.subrange(1, eids.len() as int));
    }
}

proof fn lemma_resolve_edge_at(ids: Seq<u64>, eids: Seq<(u64, u64)>, k: int)
    requires
        resolve_edges(ids, eids) is Ok,
        0 <= k < eids.len(),
    ensures
        0 <= resolve_edges(ids, eids)->Ok_0[k].0 < ids.len(),
        0 <= resolve_edges(ids, eids)->Ok_0[k].1 < ids.len(),
        ids[resolve_edges(ids, eids)->Ok_0[k].0] == eids[k].0,
        ids[resolve_edges(ids, eids)->Ok_0[k].1] == eids[k].1,
    decreases eids.len(),
{
    let rest = eids.subrange(1, eids.len() as int);
    if k == 0 {
        lemma_index_of_id_bounds(ids, eids[0].0);
        lemma_index_of_id_bounds(ids, eids[0].1);
        assert(resolve_edges(ids, eids)->Ok_0[0] == (
            index_of_id(ids, eids[0].0),
            index_of_id(ids, eids[0].1),
        ));
    } else {
        lemma_resolve_edge_at(ids, rest, k - 1);
        lemma_resolve_edges_len(ids, rest);
        let head = seq![(index_of_id(ids, eids[0].0), index_of_id(ids, eids[0].1))];
        assert(resolve_edges(ids, eids)->Ok_0 == head + resolve_edges(ids, rest)->Ok_0);
        assert((head + resolve_edges(ids, rest)->Ok_0)[k] == resolve_edges(ids, rest)->Ok_0[k
            - 1]);
        assert(rest[k - 1] == eids[k]);
    }
}

/// The `k`-th accepted edge's endpoints are positions of declared nodes,
/// and those nodes carry the edge's endpoint identifiers.
pub open spec fn edge_resolved_correctly(doc: GmlValue, k: int) -> bool {
    &&& 0 <= doc_scan(doc).result->Ok_0[k].0 < doc_scan(doc).ids.len()
    &&& 0 <= doc_scan(doc).result->Ok_0[k].1 < doc_scan(doc).ids.len()
    &&& doc_scan(doc).ids[doc_scan(doc).result->Ok_0[k].0] == doc_scan(doc).eids[k].0
    &&& doc_scan(doc).ids[doc_scan(doc).result->Ok_0[k].1] == doc_scan(doc).eids[k].1
}

/// Every accepted edge resolves to the declared nodes that carry its
/// endpoint identifiers, wherever in the section the edge was declared —
/// resolution happens after the whole walk, so an edge may precede the
/// nodes it references.
pub proof fn lemma_edges_resolve_to_declared_nodes(doc: GmlValue)
    requires
        doc_scan(doc).result is Ok,
    ensures
        doc_scan(doc).result->Ok_0.len() == doc_scan(doc).eids.len(),
        forall|k: int|
            0 <= k < doc_scan(doc).eids.len() ==> #[trigger] edge_resolved_correctly(doc, k),
{
    assert(graph_entries(doc) is Some);
    lemma_doc_scan_unfolds(doc);
    lemma_scan_result_is_resolution(init_state(), graph_entries(doc)->Some_0);
    assert(doc_scan(doc).result == resolve_edges(doc_scan(doc).ids, doc_scan(doc).eids));
    lemma_resolve_edges_len(doc_scan(doc).ids, doc_scan(doc).eids);
    assert forall|k: int|
        0 <= k < doc_scan(doc).eids.len() implies #[trigger] edge_resolved_correctly(
        doc,
        k,
    ) by {
        lemma_resolve_edge_at(doc_scan(doc).ids, doc_scan(doc).eids, k);
    }
}

/// Whenever a walk ends without error, its result is the resolution of its
/// own edge list against its own identifier list.
proof fn lemma_scan_result_is_resolution(st: ScanState, entries: Seq<(GmlValue, GmlValue)>)
    ensures
        scan_entries(st, entries).result is Ok ==> scan_entries(st, entries).result
            == resolve_edges(scan_entries(st, entries).ids, scan_entries(st, entries).eids),
    decreases entries.len(),
{
    if entries.len() == 0 {
    } else {
        let rest = entries.subrange(1, entries.len() as int);
        match classify_entry(entries[0].0, entries[0].1) {
            Err(_) => {},
            Ok(EntryKind::Directed) => {
                lemma_scan_result_is_resolution(
                    ScanState { demands: st.demands, ids: st.ids, eids: st.eids, directed: true },
                    rest,
                );
            },
            Ok(EntryKind::Node { id, weight }) => {
                if st.ids.contains(id) {
                } else {
                    lemma_scan_result_is_resolution(
                        ScanState {
                            demands: st.demands.push(Demand::Node(weight)),
                            ids: st.ids.push(id),
                            eids: st.eids,
                            directed: st.directed,
                        },
                        rest,
                    );
                }
            },
            Ok(EntryKind::Edge { source, target, weight }) => {
                lemma_scan_result_is_resolution(
                    ScanState {
                        demands: st.demands.push(Demand::Edge(weight)),
                        ids: st.ids,
                        eids: st.eids.push((source, target)),
                        directed: st.directed,
                    },
                    rest,
                );
            },
        }
    }
}

proof fn lemma_scan_counts_from(st: ScanState, entries: Seq<(GmlValue, GmlValue)>)
    requires
        node_weights(st.demands).len() == st.ids.len(),
        edge_weights(st.demands).len() == st.eids.len(),
    ensures
        scan_entries(st, entries).result is Ok ==> {
            let s = scan_entries(st, entries);
            node_weights(s.demands).len() == s.ids.len() && edge_weights(s.demands).len()
                == s.eids.len()
        },
    decreases entries.len(),
{
    if entries.len() == 0 {
    } else {
        let rest = entries.subrange(1, entries.len() as int);
        match classify_entry(entries[0].0, entries[0].1) {
            Err(_) => {},
            Ok(EntryKind::Directed) => {
                lemma_scan_counts_from(
                    ScanState { demands: st.demands, ids: st.ids, eids: st.eids, directed: true },
                    rest,
                );
            },
            Ok(EntryKind::Node { id, weight }) => {
                if st.ids.contains(id) {
                } else {
                    lemma_weights_push_node(st.demands, weight);
                    lemma_scan_counts_from(
                        ScanState {
                            demands: st.demands.push(Demand::Node(weight)),
                            ids: st.ids.push(id),
                            eids: st.eids,
                            directed: st.directed,
                        },
                        rest,
                    );
                }
            },
            Ok(EntryKind::Edge { source, target, weight }) => {
                lemma_weights_push_edge(st.demands, weight);
                lemma_scan_counts_from(
                    ScanState {
                        demands: st.demands.push(Demand::Edge(weight)),
                        ids: st.ids,
                        eids: st.eids.push((source, target)),
                        directed: st.directed,
                    },
                    rest,
                );
            },
        }
    }
}

/// An accepted document owes the node mapper one demand per declared node
/// and the edge mapper one per declared edge, and resolves every edge: the
/// output holds exactly the declared nodes and edges.
pub proof fn lemma_accepted_counts(doc: GmlValue)
    requires
        doc_scan(doc).result is Ok,
    ensures
        node_weights(doc_scan(doc).demands).len() == doc_scan(doc).ids.len(),
        edge_weights(doc_scan(doc).demands).len() == doc_scan(doc).eids.len(),
        doc_scan(doc).result->Ok_0.len() == doc_scan(doc).eids.len(),
{
    assert(graph_entries(doc) is Some);
    lemma_doc_scan_unfolds(doc);
    lemma_scan_counts_from(init_state(), graph_entries(doc)->Some_0);
    lemma_scan_result_is_resolution(init_state(), graph_entries(doc)->Some_0);
    lemma_resolve_edges_len(doc_scan(doc).ids, doc_scan(doc).eids);
}

} // verus!
