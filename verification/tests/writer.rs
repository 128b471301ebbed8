use mermaidman::store::GraphStore;
use mermaidman::types::{Edge, Node, NodeStyle, EID, UID};
use mermaidman::writer::{
    canonical_node_directive, format_node_directive, generate_mermaidman, generate_topology,
};

#[test]
fn test_canonical_node_directive() {
    let mut node = Node::new("A");
    node.uid = UID::from_str("n_001");
    node.x = Some(100);
    node.y = Some(50);

    let json = canonical_node_directive(&node);

    assert!(json.contains("\"uid\":\"n_001\""));
    assert!(json.contains("\"x\":100"));
    assert!(json.contains("\"y\":50"));
}

#[test]
fn test_format_node_directive() {
    let mut node = Node::new("A");
    node.uid = UID::from_str("n_001");
    node.x = Some(100);
    node.y = Some(50);

    let line = format_node_directive(&node);

    assert!(line.starts_with("%% @node: A "));
    assert!(line.contains("\"uid\":\"n_001\""));
}

#[test]
fn test_generate_simple_document() {
    let mut store = GraphStore::new();

    let mut node_a = Node::new("A");
    node_a.uid = UID::from_str("n_001");
    node_a.label = Some("Start".to_string());
    node_a.x = Some(100);
    node_a.y = Some(50);

    let mut node_b = Node::new("B");
    node_b.uid = UID::from_str("n_002");
    node_b.label = Some("End".to_string());
    node_b.x = Some(200);
    node_b.y = Some(100);

    store.upsert_node(node_a);
    store.upsert_node(node_b);

    let edge = Edge::with_eid(
        EID::from_str("e_001"),
        UID::from_str("n_001"),
        UID::from_str("n_002"),
    );
    store.upsert_edge(edge);

    let doc = generate_mermaidman(&store, "TD");

    assert!(doc.contains("graph TD"));
    assert!(doc.contains("A[Start]"));
    assert!(doc.contains("B[End]"));
    assert!(doc.contains("-->"));
    assert!(doc.contains("%% @node: A"));
    assert!(doc.contains("%% @node: B"));
}

#[test]
fn test_exact_generated_document() {
    let mut store = GraphStore::new();
    let mut a = Node::new("A");
    a.uid = UID::from_str("n_001");
    a.label = Some("Start".to_string());
    a.x = Some(100);
    a.y = Some(50);
    let mut b = Node::new("B");
    b.uid = UID::from_str("n_002");
    b.label = Some("End".to_string());
    store.upsert_node(a);
    store.upsert_node(b);
    store.upsert_edge(Edge::with_eid(
        EID::from_str("e_001"),
        UID::from_str("n_001"),
        UID::from_str("n_002"),
    ));

    let doc = generate_mermaidman(&store, "TD");
    assert_eq!(
        doc,
        "graph TD\n\nA[Start] --> B[End]\n\n%% @node: A {\"uid\":\"n_001\",\"x\":100,\"y\":50}\n%% @node: B {\"uid\":\"n_002\"}\n%% @edge: e1 {\"eid\":\"e_001\",\"source\":\"A\",\"target\":\"B\"}"
    );
}

#[test]
fn test_generate_topology_only() {
    let mut store = GraphStore::new();
    let mut a = Node::new("A");
    a.uid = UID::from_str("n_001");
    store.upsert_node(a);

    let doc = generate_topology(&store, "LR");
    assert_eq!(doc, "graph LR\nA");
}

#[test]
fn test_kind_and_style_serialization() {
    let mut node = Node::new("A");
    node.uid = UID::from_str("n_009");
    node.kind = mermaidman::types::NodeKind::Note;
    node.style = Some(NodeStyle { stroke: Some("red".to_string()), fill: None, border: None });

    let json = canonical_node_directive(&node);
    assert_eq!(json, "{\"uid\":\"n_009\",\"kind\":\"note\",\"style\":{\"stroke\":\"red\"}}");

    // an empty style payload is omitted
    let mut bare = Node::new("B");
    bare.uid = UID::from_str("n_010");
    bare.style = Some(NodeStyle { stroke: None, fill: None, border: None });
    assert_eq!(canonical_node_directive(&bare), "{\"uid\":\"n_010\"}");
}

#[test]
fn test_label_equal_to_id_collapses() {
    let mut store = GraphStore::new();
    let mut a = Node::new("A");
    a.uid = UID::from_str("n_001");
    a.label = Some("A".to_string());
    store.upsert_node(a);

    let doc = generate_topology(&store, "TD");
    assert_eq!(doc, "graph TD\nA");
}

#[test]
fn test_string_escaping_in_directive() {
    let mut node = Node::new("A");
    node.uid = UID::from_str("n_001");
    node.markdown = Some("line1\nline2 \"quoted\"".to_string());
    let json = canonical_node_directive(&node);
    assert_eq!(json, "{\"uid\":\"n_001\",\"markdown\":\"line1\\nline2 \\\"quoted\\\"\"}");
}

#[test]
fn test_format_edge_directive() {
    // with no node rows, endpoints keep their stored identifiers
    let empty = GraphStore::new();
    let edge = Edge::with_eid(
        EID::from_str("e_001"),
        UID::from_str("n_1"),
        UID::from_str("n_2"),
    );
    let line = mermaidman::writer::format_edge_directive(&empty, &edge, "e1");
    assert_eq!(
        line,
        "%% @edge: e1 {\"eid\":\"e_001\",\"source\":\"n_1\",\"target\":\"n_2\"}"
    );

    // with the endpoint nodes present, their text ids are written
    let mut store = GraphStore::new();
    let mut a = Node::new("A");
    a.uid = UID::from_str("n_1");
    let mut b = Node::new("B");
    b.uid = UID::from_str("n_2");
    store.upsert_node(a);
    store.upsert_node(b);
    let named = mermaidman::writer::format_edge_directive(&store, &edge, "e1");
    assert_eq!(
        named,
        "%% @edge: e1 {\"eid\":\"e_001\",\"source\":\"A\",\"target\":\"B\"}"
    );
}

#[test]
fn test_generate_parse_generate_byte_stable() {
    let input = "graph TD\nA[Start] --> B[End]\n\n%% @node: A {\"uid\":\"n_001\",\"x\":100,\"y\":50}\n%% @node: B {\"uid\":\"n_002\"}\n%% @edge: e1 {\"eid\":\"e_001\",\"source\":\"A\",\"target\":\"B\"}\n";
    let p1 = mermaidman::document::parse_document(input).unwrap();
    let s1 = GraphStore::from_parsed(p1.nodes, p1.edges);
    let t1 = generate_mermaidman(&s1, "TD");

    let p2 = mermaidman::document::parse_document(&t1).unwrap();
    let s2 = GraphStore::from_parsed(p2.nodes, p2.edges);
    let t2 = generate_mermaidman(&s2, "TD");

    assert_eq!(t2, t1);
    // the edge keeps its identity across the text round trip
    assert!(s2.get_edge(&EID::from_str("e_001")).is_some());
}

#[test]
fn test_meta_extras_survive_regeneration() {
    let input = "graph TD\nA\n\n%% @node: A {\"uid\":\"n_1\",\"x\":3,\"custom\":\"v\",\"tags\":[1, 2]}\n";
    let parsed = mermaidman::document::parse_document(input).unwrap();
    let store = mermaidman::store::GraphStore::from_parsed(parsed.nodes, parsed.edges);
    let doc = generate_mermaidman(&store, "TD");
    assert!(doc.contains("%% @node: A {\"uid\":\"n_1\",\"x\":3,\"custom\":\"v\",\"tags\":[1, 2]}"));

    // regeneration is a fixed point
    let parsed2 = mermaidman::document::parse_document(&doc).unwrap();
    let store2 = mermaidman::store::GraphStore::from_parsed(parsed2.nodes, parsed2.edges);
    let doc2 = generate_mermaidman(&store2, "TD");
    assert_eq!(doc2, doc);
}
