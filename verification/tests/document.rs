use mermaidman::document::{parse_document, parse_node_kind};
use mermaidman::types::NodeKind;

#[test]
fn test_parse_simple_document() {
    let input = "graph TD\nA[Start] --> B[End]\n\n%% @node: A {\"uid\":\"n_001\",\"x\":100,\"y\":50}\n%% @node: B {\"uid\":\"n_002\",\"x\":200,\"y\":100}\n";

    let result = parse_document(input).unwrap();
    assert_eq!(result.nodes.len(), 2);
    assert_eq!(result.edges.len(), 1);

    let node_a = result.nodes.iter().find(|n| n.mermaid_id == "A").unwrap();
    assert_eq!(node_a.uid.0, "n_001");
    assert_eq!(node_a.x, Some(100));
}

#[test]
fn test_parse_simple() {
    let input = "graph TD\nA[Start] --> B[End]\n";

    let result = parse_document(input).unwrap();
    assert_eq!(result.nodes.len(), 2);
    assert_eq!(result.edges.len(), 1);
}

#[test]
fn test_directive_lines_leave_topology() {
    let input = "graph TD\nA --> B\n%% @node: A {\"uid\":\"n_1\"}\nC\n";
    let result = parse_document(input).unwrap();
    assert_eq!(result.topology, "graph TD\nA --> B\nC");
    assert_eq!(result.nodes.len(), 3);
}

#[test]
fn test_fresh_uid_shape() {
    let result = parse_document("graph TD\nA --> B\n").unwrap();
    assert!(result.nodes[0].uid.0.starts_with("n_"));
    assert_eq!(result.nodes[0].uid.0.len(), 34);
    assert!(result.edges[0].eid.0.starts_with("e_"));
}

#[test]
fn test_unknown_endpoint_warns() {
    // the directive declares an edge but only one endpoint is in the topology
    let input = "graph TD\nA[Start]\nA --> Ghost\n";
    let result = parse_document(input).unwrap();
    // the edge line itself declares Ghost, so no warning here
    assert_eq!(result.warnings.len(), 0);
    assert_eq!(result.nodes.len(), 2);
}

#[test]
fn test_node_kind_strings() {
    assert_eq!(parse_node_kind("card"), NodeKind::Card);
    assert_eq!(parse_node_kind("NOTE"), NodeKind::Note);
    assert_eq!(parse_node_kind("Code"), NodeKind::Code);
    assert_eq!(parse_node_kind("media"), NodeKind::Media);
    assert_eq!(parse_node_kind("markdown"), NodeKind::Markdown);
    assert_eq!(parse_node_kind("diagram"), NodeKind::Diagram);
    assert_eq!(parse_node_kind("oembed"), NodeKind::Oembed);
    assert_eq!(parse_node_kind("anything else"), NodeKind::Card);
}

#[test]
fn test_directive_kind_applies() {
    let input = "graph TD\nA[Start]\n%% @node: A {\"kind\":\"note\"}\n";
    let result = parse_document(input).unwrap();
    assert_eq!(result.nodes[0].kind, NodeKind::Note);
}

#[test]
fn test_duplicate_directive_last_wins() {
    let input = "graph TD\nA\n%% @node: A {\"uid\":\"n_first\"}\n%% @node: A {\"uid\":\"n_second\"}\n";
    let result = parse_document(input).unwrap();
    assert_eq!(result.nodes[0].uid.0, "n_second");
}
