use mermaidman::patch::{update_mermaidman_node, update_node_position};

#[test]
fn test_patch_existing_directive() {
    let input = "graph TD\nA[Start]\n\n%% @node: A {\"uid\":\"n_001\",\"x\":1,\"y\":2}\n";
    let out = update_mermaidman_node(input, "A", 300, 400);
    assert_eq!(
        out,
        "graph TD\nA[Start]\n\n%% @node: A {\"uid\":\"n_001\",\"x\":300,\"y\":400}\n"
    );
}

#[test]
fn test_patch_adds_coordinates_when_absent() {
    let input = "%% @node: A {\"uid\":\"n_001\"}";
    let out = update_mermaidman_node(input, "A", 5, 6);
    assert_eq!(out, "%% @node: A {\"uid\":\"n_001\",\"x\":5,\"y\":6}");
}

#[test]
fn test_patch_appends_when_missing() {
    let input = "graph TD\nA[Start]\n";
    let out = update_mermaidman_node(input, "A", 10, 20);
    assert_eq!(out, "graph TD\nA[Start]\n%% @node: A {\"x\":10,\"y\":20}\n");
}

#[test]
fn test_patch_empty_input() {
    let out = update_mermaidman_node("", "A", 1, 2);
    assert_eq!(out, "%% @node: A {\"x\":1,\"y\":2}\n");
}

#[test]
fn test_patch_unreadable_body_falls_back() {
    let input = "%% @node: A {broken}";
    let out = update_mermaidman_node(input, "A", 7, 8);
    assert_eq!(out, "%% @node: A {\"x\":7,\"y\":8}");
}

#[test]
fn test_patch_leaves_other_nodes_alone() {
    let input = "%% @node: B {\"x\":1,\"y\":1}\n%% @node: A {\"x\":2,\"y\":2}\n";
    let out = update_mermaidman_node(input, "A", 9, 9);
    assert_eq!(out, "%% @node: B {\"x\":1,\"y\":1}\n%% @node: A {\"x\":9,\"y\":9}\n");
}

#[test]
fn test_update_node_position_pipeline() {
    let input = "graph TD\nA[Start] --> B[End]\n\n%% @node: A {\"uid\":\"n_001\",\"x\":1,\"y\":2}\n%% @node: B {\"uid\":\"n_002\"}\n";
    let out = update_node_position(input, "A", 500, 600).unwrap();
    assert!(out.contains("\"uid\":\"n_001\",\"x\":500,\"y\":600"));
    assert!(out.contains("A[Start] --> B[End]"));
}
