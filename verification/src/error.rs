use vstd::prelude::*;

verus! {

/// The closed set of failures the parser can report.
///
/// Every failure of the text-to-graph conversion is one of these; the public
/// entry point reports each as the fixed message string that [`Self::message`]
/// returns.  The first three structural variants keep the wording of the
/// generic-tree library whose map coercion they mirror.
#[derive(Debug, PartialEq, Eq, Structural, Clone, Copy)]
pub enum GmlError {
    /// The external tokenizer or tree parser rejected the text.
    InvalidDocument,
    /// A value that had to be a map was not one.
    NotMap,
    /// A map declared the same key twice.
    DuplicateKey,
    /// A map key was not a string scalar.
    KeyNotString,
    /// The document has no `graph` key, or its value is not a map.
    NoGraph,
    /// The graph section does not declare `directed 1`.
    NotDirected,
    /// A `node` record has no `id` key holding an unsigned integer.
    InvalidId,
    /// The node-weight mapper returned no payload.
    InvalidNodeWeight,
    /// Two `node` records declared the same identifier.
    DuplicateNodeId,
    /// An `edge` record has no `source` key holding an unsigned integer.
    InvalidSourceId,
    /// An `edge` record has no `target` key holding an unsigned integer.
    InvalidTargetId,
    /// The edge-weight mapper returned no payload.
    InvalidEdgeWeight,
    /// A graph-section entry has a key other than `directed`, `node`, `edge`.
    InvalidItem,
    /// An edge's `source` identifier matches no declared node.
    UnknownSourceId,
    /// An edge's `target` identifier matches no declared node.
    UnknownTargetId,
    /// The graph container cannot hold this many nodes or edges.
    GraphTooLarge,
}

impl GmlError {
    /// The fixed message for this failure, in spec form.
    pub open spec fn message_spec(self) -> Seq<char> {
        match self {
            GmlError::InvalidDocument => "Invalid GML"@,
            GmlError::NotMap => "expr is not a Sexp::Map"@,
            GmlError::DuplicateKey => "duplicate key"@,
            GmlError::KeyNotString => "key has to be a string"@,
            GmlError::NoGraph => "no graph given or invalid"@,
            GmlError::NotDirected => "only directed graph supported"@,
            GmlError::InvalidId => "Invalid id"@,
            GmlError::InvalidNodeWeight => "invalid node weight"@,
            GmlError::DuplicateNodeId => "duplicate node-id"@,
            GmlError::InvalidSourceId => "Invalid source id"@,
            GmlError::InvalidTargetId => "Invalid target id"@,
            GmlError::InvalidEdgeWeight => "invalid edge weight"@,
            GmlError::InvalidItem => "invalid item"@,
            GmlError::UnknownSourceId => "unknown source id"@,
            GmlError::UnknownTargetId => "unknown target id"@,
            GmlError::GraphTooLarge => "graph too large"@,
        }
    }

    /// The fixed message reported for this failure.
    pub fn message(self) -> (r: &'static str)
        ensures
            r@ == self.message_spec(),
    {
        match self {
            GmlError::InvalidDocument => "Invalid GML",
            GmlError::NotMap => "expr is not a Sexp::Map",
            GmlError::DuplicateKey => "duplicate key",
            GmlError::KeyNotString => "key has to be a string",
            GmlError::NoGraph => "no graph given or invalid",
            GmlError::NotDirected => "only directed graph supported",
            GmlError::InvalidId => "Invalid id",
            GmlError::InvalidNodeWeight => "invalid node weight",
            GmlError::DuplicateNodeId => "duplicate node-id",
            GmlError::InvalidSourceId => "Invalid source id",
            GmlError::InvalidTargetId => "Invalid target id",
            GmlError::InvalidEdgeWeight => "invalid edge weight",
            GmlError::InvalidItem => "invalid item",
            GmlError::UnknownSourceId => "unknown source id",
            GmlError::UnknownTargetId => "unknown target id",
            GmlError::GraphTooLarge => "graph too large",
        }
    }
}

} // verus!
