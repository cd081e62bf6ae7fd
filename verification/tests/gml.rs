use gml_parser::error::GmlError;
use gml_parser::parse_gml;
use gml_parser::tree_to_graph;
use gml_parser::value::GmlValue;
use petgraph::graph::NodeIndex;

#[test]
fn test_parse_gml() {
    let gml = "
    # comment
    graph
    [
        directed 1
        node
        [
          id 1
          \
               weight 1.0
        ]
        node
        [
          id 2
        ]
        edge
        \
               [
           source 1
           target 2
           weight 1.1000
        ]
        \
               edge
        [
           source 2
           target 1
        ]
    ]
    ";

    let g = parse_gml(
        gml,
        &|s: Option<GmlValue>| -> Option<f64> {
            Some(
                s.and_then(|v| v.get_float_bits())
                    .map(f64::from_bits)
                    .unwrap_or(0.0),
            )
        },
        &|_: Option<GmlValue>| -> Option<()> { Some(()) },
    );
    assert!(g.is_ok());
    let g = g.unwrap();
    assert_eq!(true, g.is_directed());
    assert_eq!(
        true,
        g.find_edge(NodeIndex::new(0), NodeIndex::new(1)).is_some()
    );
    assert_eq!(
        true,
        g.find_edge(NodeIndex::new(1), NodeIndex::new(0)).is_some()
    );
    assert_eq!(Some(&1.0), g.node_weight(NodeIndex::new(0)));
    assert_eq!(Some(&0.0), g.node_weight(NodeIndex::new(1)));
}

fn uint_weight(s: Option<GmlValue>) -> Option<u64> {
    Some(s.and_then(|v| v.get_uint()).unwrap_or(0))
}

fn keep_tree(s: Option<GmlValue>) -> Option<Option<GmlValue>> {
    Some(s)
}

#[test]
fn node_order_matches_declaration_order() {
    let g = parse_gml(
        "graph [ directed 1 node [ id 7 weight 70 ] node [ id 3 weight 30 ] node [ id 5 weight 50 ] ]",
        &uint_weight,
        &|_: Option<GmlValue>| -> Option<()> { Some(()) },
    )
    .unwrap();
    assert_eq!(3, g.node_count());
    assert_eq!(Some(&70), g.node_weight(NodeIndex::new(0)));
    assert_eq!(Some(&30), g.node_weight(NodeIndex::new(1)));
    assert_eq!(Some(&50), g.node_weight(NodeIndex::new(2)));
}

#[test]
fn edge_declared_before_its_nodes_resolves() {
    let g = parse_gml(
        "graph [ directed 1 edge [ source 2 target 1 weight 9 ] node [ id 1 ] node [ id 2 ] ]",
        &uint_weight,
        &uint_weight,
    )
    .unwrap();
    assert_eq!(2, g.node_count());
    assert_eq!(1, g.edge_count());
    let e = g.find_edge(NodeIndex::new(1), NodeIndex::new(0));
    assert!(e.is_some());
    assert_eq!(Some(&9), g.edge_weight(e.unwrap()));
    assert!(g.find_edge(NodeIndex::new(0), NodeIndex::new(1)).is_none());
}

#[test]
fn duplicate_node_id_is_rejected() {
    let r = parse_gml(
        "graph [ directed 1 node [ id 5 ] node [ id 5 ] ]",
        &uint_weight,
        &uint_weight,
    );
    assert_eq!(Err("duplicate node-id"), r.map(|_| ()));
}

#[test]
fn duplicate_node_id_is_rejected_after_many_entries() {
    let r = parse_gml(
        "graph [ directed 1 node [ id 1 ] node [ id 2 ] edge [ source 1 target 2 ] node [ id 2 ] ]",
        &uint_weight,
        &uint_weight,
    );
    assert_eq!(Err("duplicate node-id"), r.map(|_| ()));
}

#[test]
fn directed_zero_is_rejected() {
    let r = parse_gml("graph [ directed 0 node [ id 1 ] ]", &uint_weight, &uint_weight);
    assert_eq!(Err("only directed graph supported"), r.map(|_| ()));
}

#[test]
fn missing_directed_is_rejected() {
    let r = parse_gml("graph [ node [ id 1 ] ]", &uint_weight, &uint_weight);
    assert_eq!(Err("only directed graph supported"), r.map(|_| ()));
}

#[test]
fn directed_float_is_rejected() {
    let r = parse_gml("graph [ directed 1.5 ]", &uint_weight, &uint_weight);
    assert_eq!(Err("only directed graph supported"), r.map(|_| ()));
}

#[test]
fn directed_after_nodes_is_accepted() {
    let g = parse_gml(
        "graph [ node [ id 1 ] directed 1 ]",
        &uint_weight,
        &uint_weight,
    );
    assert!(g.is_ok());
}

#[test]
fn node_weight_mapper_rejection_fails_parse() {
    let r = parse_gml(
        "graph [ directed 1 node [ id 1 weight 4 ] node [ id 2 ] ]",
        &|_: Option<GmlValue>| -> Option<u64> { None },
        &uint_weight,
    );
    assert_eq!(Err("invalid node weight"), r.map(|_| ()));
}

#[test]
fn edge_weight_mapper_rejection_fails_parse() {
    let r = parse_gml(
        "graph [ directed 1 node [ id 1 ] node [ id 2 ] edge [ source 1 target 2 ] ]",
        &uint_weight,
        &|_: Option<GmlValue>| -> Option<u64> { None },
    );
    assert_eq!(Err("invalid edge weight"), r.map(|_| ()));
}

#[test]
fn unknown_source_id_is_an_error() {
    let r = parse_gml(
        "graph [ directed 1 node [ id 1 ] edge [ source 99 target 1 ] ]",
        &uint_weight,
        &uint_weight,
    );
    assert_eq!(Err("unknown source id"), r.map(|_| ()));
}

#[test]
fn unknown_target_id_is_an_error() {
    let r = parse_gml(
        "graph [ directed 1 node [ id 1 ] edge [ source 1 target 99 ] ]",
        &uint_weight,
        &uint_weight,
    );
    assert_eq!(Err("unknown target id"), r.map(|_| ()));
}

#[test]
fn missing_node_id_is_invalid() {
    let r = parse_gml(
        "graph [ directed 1 node [ weight 3 ] ]",
        &uint_weight,
        &uint_weight,
    );
    assert_eq!(Err("Invalid id"), r.map(|_| ()));
}

#[test]
fn non_integer_node_id_is_invalid() {
    let r = parse_gml(
        "graph [ directed 1 node [ id abc ] ]",
        &uint_weight,
        &uint_weight,
    );
    assert_eq!(Err("Invalid id"), r.map(|_| ()));
}

#[test]
fn missing_edge_source_is_invalid() {
    let r = parse_gml(
        "graph [ directed 1 edge [ target 1 ] ]",
        &uint_weight,
        &uint_weight,
    );
    assert_eq!(Err("Invalid source id"), r.map(|_| ()));
}

#[test]
fn missing_edge_target_is_invalid() {
    let r = parse_gml(
        "graph [ directed 1 edge [ source 1 ] ]",
        &uint_weight,
        &uint_weight,
    );
    assert_eq!(Err("Invalid target id"), r.map(|_| ()));
}

#[test]
fn unrecognized_entry_key_is_invalid_item() {
    let r = parse_gml(
        "graph [ directed 1 vertex [ id 1 ] ]",
        &uint_weight,
        &uint_weight,
    );
    assert_eq!(Err("invalid item"), r.map(|_| ()));
}

#[test]
fn non_string_entry_key_is_invalid_item() {
    let r = parse_gml("graph [ 1 2 ]", &uint_weight, &uint_weight);
    assert_eq!(Err("invalid item"), r.map(|_| ()));
}

#[test]
fn missing_graph_section_is_an_error() {
    let r = parse_gml("", &uint_weight, &uint_weight);
    assert_eq!(Err("no graph given or invalid"), r.map(|_| ()));
}

#[test]
fn graph_value_that_is_no_map_is_an_error() {
    let r = parse_gml("graph 5", &uint_weight, &uint_weight);
    assert_eq!(Err("no graph given or invalid"), r.map(|_| ()));
}

#[test]
fn node_record_that_is_no_map_is_an_error() {
    let r = parse_gml("graph [ directed 1 node 5 ]", &uint_weight, &uint_weight);
    assert_eq!(Err("expr is not a Sexp::Map"), r.map(|_| ()));
}

#[test]
fn duplicate_key_inside_record_is_an_error() {
    let r = parse_gml(
        "graph [ directed 1 node [ id 1 id 2 ] ]",
        &uint_weight,
        &uint_weight,
    );
    assert_eq!(Err("duplicate key"), r.map(|_| ()));
}

#[test]
fn duplicate_graph_key_is_an_error() {
    let r = parse_gml(
        "graph [ directed 1 ] graph [ directed 1 ]",
        &uint_weight,
        &uint_weight,
    );
    assert_eq!(Err("duplicate key"), r.map(|_| ()));
}

#[test]
fn non_string_top_level_key_is_an_error() {
    let r = parse_gml("1 2 graph [ directed 1 ]", &uint_weight, &uint_weight);
    assert_eq!(Err("key has to be a string"), r.map(|_| ()));
}

#[test]
fn unbalanced_text_is_invalid_gml() {
    let r = parse_gml("graph [ directed 1", &uint_weight, &uint_weight);
    assert_eq!(Err("Invalid GML"), r.map(|_| ()));
}

#[test]
fn bracket_inside_quoted_string_is_not_rewritten() {
    let g = parse_gml(
        "graph [ directed 1 node [ id 1 weight \"a[b]\" ] ]",
        &keep_tree,
        &keep_tree,
    )
    .unwrap();
    assert_eq!(
        Some(&Some(GmlValue::Str("a[b]".to_string()))),
        g.node_weight(NodeIndex::new(0))
    );
}

#[test]
fn bracketed_weight_subtree_becomes_a_map() {
    let g = parse_gml(
        "graph [ directed 1 node [ id 1 weight [ 1 2 ] ] ]",
        &keep_tree,
        &keep_tree,
    )
    .unwrap();
    assert_eq!(
        Some(&Some(GmlValue::Dict(vec![(
            GmlValue::Uint(1),
            GmlValue::Uint(2)
        )]))),
        g.node_weight(NodeIndex::new(0))
    );
}

#[test]
fn parenthesised_weight_subtree_stays_a_tuple() {
    let g = parse_gml(
        "graph [ directed 1 node [ id 1 weight ( 1 -2 ) ] ]",
        &keep_tree,
        &keep_tree,
    )
    .unwrap();
    assert_eq!(
        Some(&Some(GmlValue::Tuple(vec![
            GmlValue::Uint(1),
            GmlValue::Sint(-2)
        ]))),
        g.node_weight(NodeIndex::new(0))
    );
}

#[test]
fn absent_weight_reaches_mapper_as_none() {
    let g = parse_gml(
        "graph [ directed 1 node [ id 1 ] node [ id 2 weight 3 ] ]",
        &|s: Option<GmlValue>| Some(s.is_none()),
        &keep_tree,
    )
    .unwrap();
    assert_eq!(Some(&true), g.node_weight(NodeIndex::new(0)));
    assert_eq!(Some(&false), g.node_weight(NodeIndex::new(1)));
}

#[test]
fn tree_that_is_no_map_is_rejected_by_the_interpreter() {
    let r = tree_to_graph(
        GmlValue::Uint(5),
        &uint_weight,
        &uint_weight,
    );
    assert_eq!(Err(GmlError::NotMap), r.map(|_| ()));
}

#[test]
fn error_messages_are_fixed() {
    assert_eq!("Invalid GML", GmlError::InvalidDocument.message());
    assert_eq!("expr is not a Sexp::Map", GmlError::NotMap.message());
    assert_eq!("duplicate key", GmlError::DuplicateKey.message());
    assert_eq!("key has to be a string", GmlError::KeyNotString.message());
    assert_eq!("no graph given or invalid", GmlError::NoGraph.message());
    assert_eq!(
        "only directed graph supported",
        GmlError::NotDirected.message()
    );
    assert_eq!("Invalid id", GmlError::InvalidId.message());
    assert_eq!("invalid node weight", GmlError::InvalidNodeWeight.message());
    assert_eq!("duplicate node-id", GmlError::DuplicateNodeId.message());
    assert_eq!("Invalid source id", GmlError::InvalidSourceId.message());
    assert_eq!("Invalid target id", GmlError::InvalidTargetId.message());
    assert_eq!("invalid edge weight", GmlError::InvalidEdgeWeight.message());
    assert_eq!("invalid item", GmlError::InvalidItem.message());
    assert_eq!("unknown source id", GmlError::UnknownSourceId.message());
    assert_eq!("unknown target id", GmlError::UnknownTargetId.message());
    assert_eq!("graph too large", GmlError::GraphTooLarge.message());
}

#[test]
fn parallel_edges_are_kept_in_declaration_order() {
    let g = parse_gml(
        "graph [ directed 1 node [ id 1 ] node [ id 2 ] edge [ source 1 target 2 weight 10 ] edge [ source 1 target 2 weight 20 ] ]",
        &uint_weight,
        &uint_weight,
    )
    .unwrap();
    assert_eq!(2, g.edge_count());
    let weights: Vec<u64> = g.edge_weights().copied().collect();
    assert_eq!(vec![10, 20], weights);
}
