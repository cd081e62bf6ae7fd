use crate::error::GmlError;
use crate::value::GmlValue;
use vstd::prelude::*;

verus! {

/// One invocation owed to a caller's weight mapper: the optional `weight`
/// sub-tree of a `node` or `edge` record, in entry order.
pub enum Demand {
    /// The node-weight mapper is asked about this sub-tree.
    Node(Option<GmlValue>),
    /// The edge-weight mapper is asked about this sub-tree.
    Edge(Option<GmlValue>),
}

/// What a single graph-section entry declares, once its shape has been
/// checked.
pub enum EntryKind {
    /// A `directed 1` declaration.
    Directed,
    /// A `node` record: its identifier and optional weight sub-tree.
    Node { id: u64, weight: Option<GmlValue> },
    /// An `edge` record: endpoint identifiers and optional weight sub-tree.
    Edge { source: u64, target: u64, weight: Option<GmlValue> },
}

/// Coerces map pairs into string-keyed fields, in declaration order.
/// `acc` holds the fields already accepted; a key equal to an earlier one is
/// a duplicate, a non-string key is refused, each at the first offending
/// pair.
pub open spec fn record_fields_from(
    pairs: Seq<(GmlValue, GmlValue)>,
    acc: Seq<(Seq<char>, GmlValue)>,
) -> Result<Seq<(Seq<char>, GmlValue)>, GmlError>
    decreases pairs.len(),
{
    if pairs.len() == 0 {
        Ok(acc)
    } else {
        match pairs[0].0 {
            GmlValue::Str(s) => if has_key(acc, s@) {
                Err(GmlError::DuplicateKey)
            } else {
                record_fields_from(
                    pairs.subrange(1, pairs.len() as int),
                    acc.push((s@, pairs[0].1)),
                )
            },
            _ => Err(GmlError::KeyNotString),
        }
    }
}

/// Whether `fields` already holds `key`.
pub open spec fn has_key(fields: Seq<(Seq<char>, GmlValue)>, key: Seq<char>) -> bool {
    exists|i: int| 0 <= i < fields.len() && (#[trigger] fields[i]).0 == key
}

/// A value as a record: it must be a map whose keys are strings, each
/// declared once.
pub open spec fn record_of(v: GmlValue) -> Result<Seq<(Seq<char>, GmlValue)>, GmlError> {
    match v {
        GmlValue::Dict(pairs) => record_fields_from(pairs@, Seq::empty()),
        _ => Err(GmlError::NotMap),
    }
}

/// The value under `key`, at its first occurrence.
pub open spec fn field_of(fields: Seq<(Seq<char>, GmlValue)>, key: Seq<char>) -> Option<
    GmlValue,
>
    decreases fields.len(),
{
    if fields.len() == 0 {
        None
    } else if fields[0].0 == key {
        Some(fields[0].1)
    } else {
        field_of(fields.subrange(1, fields.len() as int), key)
    }
}

/// The unsigned integer under `key`, if the key is present and holds one.
pub open spec fn uint_field(fields: Seq<(Seq<char>, GmlValue)>, key: Seq<char>) -> Option<u64> {
    match field_of(fields, key) {
        Some(v) => v.as_uint(),
        None => None,
    }
}

/// Checks the shape of one graph-section entry and reads what it declares.
pub open spec fn classify_entry(key: GmlValue, val: GmlValue) -> Result<EntryKind, GmlError> {
    match key {
        GmlValue::Str(k) => if k@ == "directed"@ {
            if val == GmlValue::Uint(1u64) {
                Ok(EntryKind::Directed)
            } else {
                Err(GmlError::NotDirected)
            }
        } else if k@ == "node"@ {
            match record_of(val) {
                Ok(fields) => match uint_field(fields, "id"@) {
                    Some(id) => Ok(EntryKind::Node { id, weight: field_of(fields, "weight"@) }),
                    None => Err(GmlError::InvalidId),
                },
                Err(e) => Err(e),
            }
        } else if k@ == "edge"@ {
            match record_of(val) {
                Ok(fields) => match uint_field(fields, "source"@) {
                    Some(source) => match uint_field(fields, "target"@) {
                        Some(target) => Ok(
                            EntryKind::Edge {
                                source,
                                target,
                                weight: field_of(fields, "weight"@),
                            },
                        ),
                        None => Err(GmlError::InvalidTargetId),
                    },
                    None => Err(GmlError::InvalidSourceId),
                },
                Err(e) => Err(e),
            }
        } else {
            Err(GmlError::InvalidItem)
        },
        _ => Err(GmlError::InvalidItem),
    }
}

/// The walk's running state: weight demands issued so far, node identifiers
/// and edge endpoint identifiers in declaration order, and whether a
/// `directed 1` entry has been seen.
#[verifier::ext_equal]
pub struct ScanState {
    pub demands: Seq<Demand>,
    pub ids: Seq<u64>,
    pub eids: Seq<(u64, u64)>,
    pub directed: bool,
}

/// The outcome of the structural walk: every weight demand it issues, the
/// declared identifiers, and — should every demand be met — the resolved
/// edge endpoint positions, or the structural error that stops the parse.
#[verifier::ext_equal]
pub struct Scan {
    pub demands: Seq<Demand>,
    pub ids: Seq<u64>,
    pub eids: Seq<(u64, u64)>,
    pub result: Result<Seq<(int, int)>, GmlError>,
}

/// The position of the first occurrence of `id` in `ids` (meaningful when
/// `ids` contains `id`).
pub open spec fn index_of_id(ids: Seq<u64>, id: u64) -> int
    decreases ids.len(),
{
    if ids.len() == 0 {
        0
    } else if ids[0] == id {
        0
    } else {
        1 + index_of_id(ids.subrange(1, ids.len() as int), id)
    }
}

/// Resolves each edge's endpoint identifiers to node positions, in edge
/// declaration order; an identifier no node declared stops resolution.
pub open spec fn resolve_edges(ids: Seq<u64>, eids: Seq<(u64, u64)>) -> Result<
    Seq<(int, int)>,
    GmlError,
>
    decreases eids.len(),
{
    if eids.len() == 0 {
        Ok(Seq::empty())
    } else if !ids.contains(eids[0].0) {
        Err(GmlError::UnknownSourceId)
    } else if !ids.contains(eids[0].1) {
        Err(GmlError::UnknownTargetId)
    } else {
        match resolve_edges(ids, eids.subrange(1, eids.len() as int)) {
            Ok(rest) => Ok(
                seq![(index_of_id(ids, eids[0].0), index_of_id(ids, eids[0].1))] + rest,
            ),
            Err(e) => Err(e),
        }
    }
}

/// What happens after the walk has passed every entry: the section must have
/// declared `directed 1`, then the buffered edges are resolved.
pub open spec fn finish_scan(st: ScanState) -> Scan {
    if !st.directed {
        Scan { demands: st.demands, ids: st.ids, eids: st.eids, result: Err(GmlError::NotDirected) }
    } else {
        Scan {
            demands: st.demands,
            ids: st.ids,
            eids: st.eids,
            result: resolve_edges(st.ids, st.eids),
        }
    }
}

/// The structural walk over the graph section's entries, in declaration
/// order.  A `node` record's demand is issued before its identifier is
/// checked against the ones already declared, as the interpreter consults
/// the node-weight mapper before it detects the duplicate.
pub open spec fn scan_entries(st: ScanState, entries: Seq<(GmlValue, GmlValue)>) -> Scan
    decreases entries.len(),
{
    if entries.len() == 0 {
        finish_scan(st)
    } else {
        let rest = entries.subrange(1, entries.len() as int);
        match classify_entry(entries[0].0, entries[0].1) {
            Err(e) => Scan { demands: st.demands, ids: st.ids, eids: st.eids, result: Err(e) },
            Ok(EntryKind::Directed) => scan_entries(
                ScanState { demands: st.demands, ids: st.ids, eids: st.eids, directed: true },
                rest,
            ),
            Ok(EntryKind::Node { id, weight }) => {
                let demands = st.demands.push(Demand::Node(weight));
                if st.ids.contains(id) {
                    Scan {
                        demands,
                        ids: st.ids,
                        eids: st.eids,
                        result: Err(GmlError::DuplicateNodeId),
                    }
                } else {
                    scan_entries(
                        ScanState {
                            demands,
                            ids: st.ids.push(id),
                            eids: st.eids,
                            directed: st.directed,
                        },
                        rest,
                    )
                }
            },
            Ok(EntryKind::Edge { source, target, weight }) => scan_entries(
                ScanState {
                    demands: st.demands.push(Demand::Edge(weight)),
                    ids: st.ids,
                    eids: st.eids.push((source, target)),
                    directed: st.directed,
                },
                rest,
            ),
        }
    }
}

/// The walk's starting state.
pub open spec fn init_state() -> ScanState {
    ScanState { demands: Seq::empty(), ids: Seq::empty(), eids: Seq::empty(), directed: false }
}

/// A scan that failed before any entry was walked.
pub open spec fn empty_scan_err(e: GmlError) -> Scan {
    Scan { demands: Seq::empty(), ids: Seq::empty(), eids: Seq::empty(), result: Err(e) }
}

/// The graph section's entries, where the document has one: the document
/// must be a record holding `graph`, and that key's value must be a map.
pub open spec fn graph_entries(doc: GmlValue) -> Option<Seq<(GmlValue, GmlValue)>> {
    match record_of(doc) {
        Ok(fields) => match field_of(fields, "graph"@) {
            Some(GmlValue::Dict(entries)) => Some(entries@),
            _ => None,
        },
        Err(_) => None,
    }
}

/// The complete structural interpretation of a parsed document.
pub open spec fn doc_scan(doc: GmlValue) -> Scan {
    match record_of(doc) {
        Ok(fields) => match field_of(fields, "graph"@) {
            Some(GmlValue::Dict(entries)) => scan_entries(init_state(), entries@),
            _ => empty_scan_err(GmlError::NoGraph),
        },
        Err(e) => empty_scan_err(e),
    }
}

/// The weight sub-trees owed to the node-weight mapper, in node declaration
/// order.
pub open spec fn node_weights(demands: Seq<Demand>) -> Seq<Option<GmlValue>>
    decreases demands.len(),
{
    if demands.len() == 0 {
        Seq::empty()
    } else {
        let prefix = node_weights(demands.drop_last());
        match demands.last() {
            Demand::Node(w) => prefix.push(w),
            Demand::Edge(_) => prefix,
        }
    }
}

/// The weight sub-trees owed to the edge-weight mapper, in edge declaration
/// order.
pub open spec fn edge_weights(demands: Seq<Demand>) -> Seq<Option<GmlValue>>
    decreases demands.len(),
{
    if demands.len() == 0 {
        Seq::empty()
    } else {
        let prefix = edge_weights(demands.drop_last());
        match demands.last() {
            Demand::Node(_) => prefix,
            Demand::Edge(w) => prefix.push(w),
        }
    }
}

/// Appending a node demand appends its weight to the node mapper's list and
/// leaves the edge mapper's list unchanged.
pub proof fn lemma_weights_push_node(demands: Seq<Demand>, w: Option<GmlValue>)
    ensures
        node_weights(demands.push(Demand::Node(w))) == node_weights(demands).push(w),
        edge_weights(demands.push(Demand::Node(w))) == edge_weights(demands),
{
    let e = demands.push(Demand::Node(w));
    assert(e.drop_last() =~= demands);
    assert(e.last() == Demand::Node(w));
}

/// Appending an edge demand appends its weight to the edge mapper's list and
/// leaves the node mapper's list unchanged.
pub proof fn lemma_weights_push_edge(demands: Seq<Demand>, w: Option<GmlValue>)
    ensures
        edge_weights(demands.push(Demand::Edge(w))) == edge_weights(demands).push(w),
        node_weights(demands.push(Demand::Edge(w))) == node_weights(demands),
{
    let e = demands.push(Demand::Edge(w));
    assert(e.drop_last() =~= demands);
    assert(e.last() == Demand::Edge(w));
}

/// The walk only ever appends to the demands it starts from.
pub proof fn lemma_scan_demands_prefix(st: ScanState, entries: Seq<(GmlValue, GmlValue)>)
    ensures
        st.demands.is_prefix_of(scan_entries(st, entries).demands),
    decreases entries.len(),
{
    if entries.len() == 0 {
    } else {
        let rest = entries.subrange(1, entries.len() as int);
        match classify_entry(entries[0].0, entries[0].1) {
            Err(_) => {},
            Ok(EntryKind::Directed) => {
                lemma_scan_demands_prefix(
                    ScanState { demands: st.demands, ids: st.ids, eids: st.eids, directed: true },
                    rest,
                );
            },
            Ok(EntryKind::Node { id, weight }) => {
                let demands = st.demands.push(Demand::Node(weight));
                if st.ids.contains(id) {
                } else {
                    lemma_scan_demands_prefix(
                        ScanState {
                            demands,
                            ids: st.ids.push(id),
                            eids: st.eids,
                            directed: st.directed,
                        },
                        rest,
                    );
                }
            },
            Ok(EntryKind::Edge { source, target, weight }) => {
                lemma_scan_demands_prefix(
                    ScanState {
                        demands: st.demands.push(Demand::Edge(weight)),
                        ids: st.ids,
                        eids: st.eids.push((source, target)),
                        directed: st.directed,
                    },
                    rest,
                );
            },
        }
    }
}

/// Where `ids` has no occurrence of `id` before position `i` and one at `i`,
/// position `i` is the first occurrence.
pub proof fn lemma_index_of_id_first(ids: Seq<u64>, id: u64, i: int)
    requires
        0 <= i < ids.len(),
        ids[i] == id,
        forall|j: int| 0 <= j < i ==> ids[j] != id,
    ensures
        index_of_id(ids, id) == i,
        ids.contains(id),
    decreases ids.len(),
{
    if i == 0 {
        assert(ids.contains(id)) by {
            assert(ids[0] == id);
        }
    } else {
        let rest = ids.subrange(1, ids.len() as int);
        assert(rest[i - 1] == id);
        assert(forall|j: int| 0 <= j < i - 1 ==> rest[j] != id);
        lemma_index_of_id_first(rest, id, i - 1);
        assert(ids[0] != id);
        assert(ids.contains(id)) by {
            assert(ids[i] == id);
        }
    }
}

/// The first occurrence of a contained identifier is a position of `ids`,
/// and holds it.
pub proof fn lemma_index_of_id_bounds(ids: Seq<u64>, id: u64)
    requires
        ids.contains(id),
    ensures
        0 <= index_of_id(ids, id) < ids.len(),
        ids[index_of_id(ids, id)] == id,
    decreases ids.len(),
{
    if ids.len() == 0 {
    } else if ids[0] == id {
    } else {
        let rest = ids.subrange(1, ids.len() as int);
        let w = choose|w: int| 0 <= w < ids.len() && ids[w] == id;
        assert(rest[w - 1] == id);
        assert(rest.contains(id));
        lemma_index_of_id_bounds(rest, id);
    }
}

} // verus!
