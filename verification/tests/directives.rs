use mermaidman::directives::{parse_ai_directive, parse_edge_directive, parse_node_directive};
use mermaidman::json::JsonValue;

#[test]
fn test_parse_node_directive() {
    let line = "%% @node: A {\"uid\":\"n_001\",\"x\":100,\"y\":50,\"kind\":\"card\"}";
    let d = parse_node_directive(line).unwrap();

    assert_eq!(d.id, "A");
    assert_eq!(d.uid, Some("n_001".to_string()));
    assert_eq!(d.x, Some(100));
    assert_eq!(d.y, Some(50));
    assert_eq!(d.kind, Some("card".to_string()));
}

#[test]
fn test_parse_edge_directive() {
    let line = "%% @edge: e1 {\"eid\":\"e_001\",\"source\":\"n_1\",\"target\":\"n_2\",\"label\":\"next\"}";
    let d = parse_edge_directive(line).unwrap();

    assert_eq!(d.eid, Some("e_001".to_string()));
    assert_eq!(d.source, Some("n_1".to_string()));
    assert_eq!(d.target, Some("n_2".to_string()));
    assert_eq!(d.label, Some("next".to_string()));
}

#[test]
fn test_edge_directive_without_eid() {
    let line = "%% @edge: e1 {\"source\":\"n_1\",\"target\":\"n_2\"}";
    let d = parse_edge_directive(line).unwrap();
    assert_eq!(d.eid, None);
}

#[test]
fn test_parse_ai_directive() {
    let line = "%% @ai: n_001 {\"action\":\"summarize\",\"provider\":\"gemini\"}";
    let d = parse_ai_directive(line).unwrap();

    assert_eq!(d.target_uid, "n_001");
    assert_eq!(d.action, "summarize");
    assert_eq!(d.provider, Some("gemini".to_string()));
}

#[test]
fn test_malformed_body_is_dropped() {
    assert!(parse_node_directive("%% @node: A {not json}").is_none());
    assert!(parse_node_directive("%% @node: A").is_none());
    assert!(parse_node_directive("%% @node: A {\"x\":1} trailing").is_none());
    assert!(parse_ai_directive("%% @ai: n_1 {\"provider\":\"p\"}").is_none());
}

#[test]
fn test_fractional_coordinate_rounds() {
    let d = parse_node_directive("%% @node: A {\"x\":1.5,\"y\":-1.5}").unwrap();
    assert_eq!(d.x, Some(2));
    assert_eq!(d.y, Some(-2));

    let d2 = parse_node_directive("%% @node: A {\"x\":1.4,\"y\":-1.4}").unwrap();
    assert_eq!(d2.x, Some(1));
    assert_eq!(d2.y, Some(-1));
}

#[test]
fn test_exponent_coordinates() {
    let d = parse_node_directive("%% @node: A {\"x\":1e2,\"y\":-2.5e1}").unwrap();
    assert_eq!(d.x, Some(100));
    assert_eq!(d.y, Some(-25));

    let d2 = parse_node_directive("%% @node: A {\"x\":5e-1,\"y\":1e-5}").unwrap();
    assert_eq!(d2.x, Some(1));
    assert_eq!(d2.y, Some(0));
}

#[test]
fn test_non_number_coordinate_is_ignored() {
    let d = parse_node_directive("%% @node: A {\"x\":\"100\",\"y\":true}").unwrap();
    assert_eq!(d.x, None);
    assert_eq!(d.y, None);
}

#[test]
fn test_duplicate_key_last_wins() {
    let d = parse_node_directive("%% @node: A {\"x\":1,\"x\":7}").unwrap();
    assert_eq!(d.x, Some(7));
}

#[test]
fn test_string_escapes_decode() {
    let d = parse_node_directive("%% @node: A {\"uid\":\"a\\nb\\u0041\"}").unwrap();
    assert_eq!(d.uid, Some("a\nbA".to_string()));
}

#[test]
fn test_nested_composite_is_kept_verbatim() {
    let d = parse_node_directive("%% @node: A {\"tags\":[1, 2,  3]}").unwrap();
    let meta = d.meta.unwrap();
    match meta.get("tags") {
        Some(JsonValue::Raw(raw)) => assert_eq!(raw, "[1, 2,  3]"),
        other => panic!("unexpected member: {:?}", other),
    }
}

#[test]
fn test_ai_timestamp() {
    let d = parse_ai_directive("%% @ai: n_9 {\"action\":\"do\",\"timestamp\":1700000000000}").unwrap();
    assert_eq!(d.timestamp, Some(1700000000000));
    let d2 = parse_ai_directive("%% @ai: n_9 {\"action\":\"do\",\"timestamp\":-5}").unwrap();
    assert_eq!(d2.timestamp, None);
}
