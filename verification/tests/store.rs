use mermaidman::store::GraphStore;
use mermaidman::types::{Edge, Node, EID, UID};

#[test]
fn test_graph_store_basic() {
    let mut store = GraphStore::new();

    let node = Node::new("A");
    let uid = node.uid.clone();
    store.upsert_node(node);

    assert!(store.get_node(&uid).is_some());
    assert!(store.get_node_by_mermaid_id("A").is_some());
}

#[test]
fn test_node_move() {
    let mut store = GraphStore::new();
    let node = Node::new("A");
    let uid = node.uid.clone();
    store.upsert_node(node);

    store.move_node(&uid, 100, 200);

    let n = store.get_node(&uid).unwrap();
    assert_eq!(n.x, Some(100));
    assert_eq!(n.y, Some(200));
}

#[test]
fn test_soft_delete() {
    let mut store = GraphStore::new();
    let node = Node::new("A");
    let uid = node.uid.clone();
    store.upsert_node(node);

    store.delete_node(&uid);

    assert!(store.get_node(&uid).unwrap().deleted);
    assert_eq!(store.active_nodes().len(), 0);
}

#[test]
fn test_rename_keeps_uid() {
    let mut store = GraphStore::new();
    let node = Node::new("A");
    let uid = node.uid.clone();
    store.upsert_node(node);

    store.rename_node(&uid, "B");

    assert!(store.get_node_by_mermaid_id("A").is_none());
    let n = store.get_node_by_mermaid_id("B").unwrap();
    assert_eq!(n.uid.0, uid.0);
    assert_eq!(n.mermaid_id, "B");
}

#[test]
fn test_upsert_replaces_in_place() {
    let mut store = GraphStore::new();
    let a = Node::new("A");
    let uid_a = a.uid.clone();
    let b = Node::new("B");
    store.upsert_node(a);
    store.upsert_node(b);

    let mut a2 = Node::new("A2");
    a2.uid = uid_a.clone();
    store.upsert_node(a2);

    assert_eq!(store.nodes.len(), 2);
    assert_eq!(store.nodes[0].uid.0, uid_a.0);
    assert_eq!(store.nodes[0].mermaid_id, "A2");
}

#[test]
fn test_adjacency_queries() {
    let mut store = GraphStore::new();
    let a = Node::new("A");
    let b = Node::new("B");
    let ua = a.uid.clone();
    let ub = b.uid.clone();
    store.upsert_node(a);
    store.upsert_node(b);
    let e = Edge::with_eid(EID::from_str("e_1"), ua.clone(), ub.clone());
    store.upsert_edge(e);

    assert_eq!(store.outgoing_edges(&ua).len(), 1);
    assert_eq!(store.incoming_edges(&ua).len(), 0);
    assert_eq!(store.incoming_edges(&ub).len(), 1);
    assert_eq!(store.edges_for_node(&ua).len(), 1);

    store.delete_edge(&EID::from_str("e_1"));
    assert_eq!(store.edges_for_node(&ua).len(), 0);
    assert_eq!(store.active_edges().len(), 0);
    assert!(store.get_edge(&EID::from_str("e_1")).is_some());
}

#[test]
fn test_deleted_node_stays_retrievable() {
    let mut store = GraphStore::new();
    let node = Node::new("A");
    let uid = node.uid.clone();
    store.upsert_node(node);
    store.delete_node(&uid);

    assert!(store.get_node(&uid).is_some());
    assert!(store.get_node_by_mermaid_id("A").is_none());
}

#[test]
fn test_move_absent_uid_is_noop() {
    let mut store = GraphStore::new();
    store.move_node(&UID::from_str("n_missing"), 5, 6);
    assert_eq!(store.nodes.len(), 0);
}
