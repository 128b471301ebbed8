use mermaidman::topology::parse_mermaid_topology;

#[test]
fn test_parse_simple_topology() {
    let input = "graph TD\nA[Start] --> B[End]";

    let (nodes, edges) = parse_mermaid_topology(input).unwrap();

    assert_eq!(nodes.len(), 2);
    assert_eq!(nodes[0], ("A".to_string(), Some("Start".to_string())));
    assert_eq!(nodes[1], ("B".to_string(), Some("End".to_string())));

    assert_eq!(edges.len(), 1);
    assert_eq!(edges[0].0, "A");
    assert_eq!(edges[0].1, "B");
}

#[test]
fn test_parse_node_shapes() {
    let input = "graph LR\nA[Rectangle]\nB((Circle))\nC{Diamond}\nD([Stadium])\nE>Asymmetric]";

    let (nodes, _) = parse_mermaid_topology(input).unwrap();

    assert_eq!(nodes.len(), 5);
    assert_eq!(nodes[0].1, Some("Rectangle".to_string()));
    assert_eq!(nodes[1].1, Some("Circle".to_string()));
    assert_eq!(nodes[2].1, Some("Diamond".to_string()));
}

#[test]
fn test_parse_edge_with_label() {
    let input = "graph TD\nA --|yes|--> B";

    let (_, edges) = parse_mermaid_topology(input).unwrap();

    assert_eq!(edges.len(), 1);
    assert_eq!(edges[0].2, Some("yes".to_string()));
}

#[test]
fn test_structural_lines_are_skipped() {
    let input = "flowchart LR\nsubgraph cluster\nA --> B\nend";

    let (nodes, edges) = parse_mermaid_topology(input).unwrap();

    assert_eq!(nodes.len(), 2);
    assert_eq!(edges.len(), 1);
}

#[test]
fn test_unparseable_lines_are_skipped() {
    let input = "graph TD\n???\nA --> B\n!!!";

    let (nodes, edges) = parse_mermaid_topology(input).unwrap();

    assert_eq!(nodes.len(), 2);
    assert_eq!(edges.len(), 1);
}

#[test]
fn test_empty_input() {
    let (nodes, edges) = parse_mermaid_topology("").unwrap();
    assert_eq!(nodes.len(), 0);
    assert_eq!(edges.len(), 0);
}

#[test]
fn test_first_occurrence_fixes_order() {
    let input = "graph TD\nB --> A\nA --> C";

    let (nodes, _) = parse_mermaid_topology(input).unwrap();

    assert_eq!(nodes[0].0, "B");
    assert_eq!(nodes[1].0, "A");
    assert_eq!(nodes[2].0, "C");
    assert_eq!(nodes.len(), 3);
}
