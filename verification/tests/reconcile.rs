use mermaidman::document::parse_document;
use mermaidman::reconcile::{apply_ui_changes, reconcile};
use mermaidman::store::GraphStore;
use mermaidman::types::UID;

#[test]
fn test_reconcile_preserves_uids() {
    let initial = "graph TD\nA[Start] --> B[End]\n\n%% @node: A {\"uid\":\"n_001\",\"x\":100,\"y\":50}\n%% @node: B {\"uid\":\"n_002\",\"x\":200,\"y\":100}\n";

    let parsed = parse_document(initial).unwrap();
    let store = GraphStore::from_parsed(parsed.nodes, parsed.edges);

    // modified topology: same nodes, different labels
    let modified = "graph TD\nA[Begin] --> B[Finish]\n";

    let result = reconcile(modified, &store).unwrap();

    // UIDs are preserved
    let node_a = result.store.get_node_by_mermaid_id("A").unwrap();
    assert_eq!(node_a.uid.0, "n_001");
    assert_eq!(node_a.label, Some("Begin".to_string()));

    // positions are preserved
    assert_eq!(node_a.x, Some(100));
    assert_eq!(node_a.y, Some(50));
}

#[test]
fn test_reconcile_detects_orphans() {
    let initial = "graph TD\nA[Start] --> B[Middle]\nB --> C[End]\n\n%% @node: A {\"uid\":\"n_001\",\"x\":100,\"y\":50}\n%% @node: B {\"uid\":\"n_002\",\"x\":200,\"y\":100}\n%% @node: C {\"uid\":\"n_003\",\"x\":300,\"y\":150}\n";

    let parsed = parse_document(initial).unwrap();
    let store = GraphStore::from_parsed(parsed.nodes, parsed.edges);

    // modified: node C removed
    let modified = "graph TD\nA[Start] --> B[Middle]\n";

    let result = reconcile(modified, &store).unwrap();

    assert!(result.orphaned_nodes.iter().any(|u| u.0 == "n_003"));
}

#[test]
fn test_orphaned_node_still_in_old_store() {
    let initial = "graph TD\nA --> B\nB --> C\n\n%% @node: C {\"uid\":\"n_003\"}\n";
    let parsed = parse_document(initial).unwrap();
    let store = GraphStore::from_parsed(parsed.nodes, parsed.edges);

    let result = reconcile("graph TD\nA --> B\n", &store).unwrap();

    assert!(result.orphaned_nodes.iter().any(|u| u.0 == "n_003"));
    // the old store is untouched and the node stays retrievable
    assert!(store.get_node(&UID::from_str("n_003")).is_some());
    // the new store's active view excludes it
    assert!(result.store.get_node(&UID::from_str("n_003")).is_none());
    // the warning names it
    assert!(result.warnings.iter().any(|w| w.contains("Orphaned nodes") && w.contains("n_003")));
}

#[test]
fn test_merge_precedence_keeps_style() {
    // a store whose node carries a style payload
    let initial = "graph TD\nA[Start]\n\n%% @node: A {\"uid\":\"n_001\"}\n";
    let parsed = parse_document(initial).unwrap();
    let mut store = GraphStore::from_parsed(parsed.nodes, parsed.edges);
    let uid = UID::from_str("n_001");
    let mut node = store.get_node(&uid).unwrap().clone();
    node.style = Some(mermaidman::types::NodeStyle {
        stroke: Some("red".to_string()),
        fill: None,
        border: None,
    });
    store.upsert_node(node);

    // a directive supplying only coordinates
    let modified = "graph TD\nA[Start]\n\n%% @node: A {\"x\":42,\"y\":7}\n";
    let result = reconcile(modified, &store).unwrap();

    let n = result.store.get_node(&uid).unwrap();
    assert_eq!(n.x, Some(42));
    assert_eq!(n.y, Some(7));
    let style = n.style.as_ref().unwrap();
    assert_eq!(style.stroke, Some("red".to_string()));
}

#[test]
fn test_idempotent_canonicalization() {
    let initial = "graph TD\nA[Start] --> B[End]\n\n%% @node: A {\"uid\":\"n_001\",\"x\":100,\"y\":50}\n%% @node: B {\"uid\":\"n_002\"}\n";
    let parsed = parse_document(initial).unwrap();
    let store = GraphStore::from_parsed(parsed.nodes, parsed.edges);

    let first = reconcile(&mermaidman::writer::generate_mermaidman(&store, "TD"), &store).unwrap();
    // regenerating from the reconciled store reproduces the reconciled text
    let again = mermaidman::writer::generate_mermaidman(&first.store, "TD");
    assert_eq!(again, first.text);

    // and reconciling the reconciled text is a fixed point of the text
    let second = reconcile(&first.text, &first.store).unwrap();
    assert_eq!(second.text, first.text);
}

#[test]
fn test_identity_preserved_against_conflicting_directive() {
    let initial = "graph TD\nA[Start]\n\n%% @node: A {\"uid\":\"n_001\"}\n";
    let parsed = parse_document(initial).unwrap();
    let store = GraphStore::from_parsed(parsed.nodes, parsed.edges);

    // the incoming directive claims a different uid; the alias wins
    let modified = "graph TD\nA[Start]\n\n%% @node: A {\"uid\":\"n_999\"}\n";
    let result = reconcile(modified, &store).unwrap();

    let n = result.store.get_node_by_mermaid_id("A").unwrap();
    assert_eq!(n.uid.0, "n_001");
    assert!(result.store.get_node(&UID::from_str("n_999")).is_none());
}

#[test]
fn test_apply_ui_changes() {
    let initial = "graph TD\nA[Start]\n\n%% @node: A {\"uid\":\"n_001\",\"x\":1,\"y\":2}\n";
    let parsed = parse_document(initial).unwrap();
    let mut store = GraphStore::from_parsed(parsed.nodes, parsed.edges);

    let updates = vec![(UID::from_str("n_001"), 300i64, 400i64)];
    apply_ui_changes(&mut store, &updates);

    let n = store.get_node(&UID::from_str("n_001")).unwrap();
    assert_eq!(n.x, Some(300));
    assert_eq!(n.y, Some(400));
}

#[test]
fn test_reconcile_keeps_edge_without_directives() {
    let initial = "graph TD\nA[Start] --> B[End]\n\n%% @node: A {\"uid\":\"n_001\"}\n%% @node: B {\"uid\":\"n_002\"}\n";
    let parsed = parse_document(initial).unwrap();
    let store = GraphStore::from_parsed(parsed.nodes, parsed.edges);
    let old_eid = store.edges[0].eid.clone();

    // fresh text with no directives at all: the alias carries the node
    // identities, and the edge follows its endpoints
    let result = reconcile("graph TD\nA[Begin] --> B[Finish]\n", &store).unwrap();

    let e = result.store.get_edge(&old_eid).unwrap();
    assert_eq!(e.source.0, "n_001");
    assert_eq!(e.target.0, "n_002");
    assert_eq!(result.orphaned_edges.len(), 0);
    assert_eq!(result.orphaned_nodes.len(), 0);
}

#[test]
fn test_reconcile_revives_deleted_node() {
    let initial = "graph TD\nC[Old]\n\n%% @node: C {\"uid\":\"n_009\"}\n";
    let parsed = parse_document(initial).unwrap();
    let mut store = GraphStore::from_parsed(parsed.nodes, parsed.edges);
    store.delete_node(&UID::from_str("n_009"));
    assert!(store.get_node(&UID::from_str("n_009")).unwrap().deleted);

    // fresh text declares the node again, embedding the same uid
    let result = reconcile("graph TD\nC[New]\n\n%% @node: C {\"uid\":\"n_009\"}\n", &store)
        .unwrap();

    let n = result.store.get_node(&UID::from_str("n_009")).unwrap();
    assert!(!n.deleted);
    assert_eq!(n.label, Some("New".to_string()));
}

#[test]
fn test_reconcile_matches_edge_by_endpoints() {
    let initial = "graph TD\nA --> B\n\n%% @node: A {\"uid\":\"n_001\"}\n%% @node: B {\"uid\":\"n_002\"}\n%% @edge: e1 {\"eid\":\"e_010\",\"source\":\"A\",\"target\":\"B\"}\n";
    let parsed = parse_document(initial).unwrap();
    let store = GraphStore::from_parsed(parsed.nodes, parsed.edges);

    // the regenerated text keyed the directives by uid; reconcile keeps the
    // edge's identity by matching its resolved endpoints
    let text = mermaidman::writer::generate_mermaidman(&store, "TD");
    let result = reconcile(&text, &store).unwrap();
    assert!(result.store.get_edge(&mermaidman::types::EID::from_str("e_010")).is_some());
    assert_eq!(result.orphaned_edges.len(), 0);
}
