//! Directive parsing: structured metadata from comment lines of the form
//! `%% @<kind>: <key> <json-object>`.
//!
//! A line that matches the directive prefix but whose body cannot be read,
//! or that misses a required field, yields nothing; directive parsing
//! never raises a hard error.

use vstd::prelude::*;

use crate::json::{
    body_object_spec, num_coerce, num_coerce_spec, num_u64_spec, num_as_u64, obj_get_spec,
    parse_body, JsonObject, JsonValView, JsonValue,
};
use crate::text::{chars_vec, id_end, lit_at, lit_at_spec, skip_id, skip_ws, string_from_chars,
    subvec, ws_end};
use crate::types::opt_str_view;

verus! {

/// Parsed node directive.
#[derive(Debug)]
pub struct NodeDirective {
    pub id: String,
    pub uid: Option<String>,
    pub x: Option<i32>,
    pub y: Option<i32>,
    pub kind: Option<String>,
    pub meta: Option<JsonObject>,
}

/// Parsed edge directive.
#[derive(Debug)]
pub struct EdgeDirective {
    pub eid: Option<String>,
    pub source: Option<String>,
    pub target: Option<String>,
    pub label: Option<String>,
    pub meta: Option<JsonObject>,
}

/// Parsed AI directive.
#[derive(Debug)]
pub struct AiDirective {
    pub target_uid: String,
    pub action: String,
    pub provider: Option<String>,
    pub timestamp: Option<u64>,
    pub meta: Option<JsonObject>,
}

pub struct NodeDirView {
    pub id: Seq<char>,
    pub uid: Option<Seq<char>>,
    pub x: Option<i32>,
    pub y: Option<i32>,
    pub kind: Option<Seq<char>>,
    pub meta: Option<Seq<(Seq<char>, JsonValView)>>,
}

pub struct EdgeDirView {
    pub eid: Option<Seq<char>>,
    pub source: Option<Seq<char>>,
    pub target: Option<Seq<char>>,
    pub label: Option<Seq<char>>,
    pub meta: Option<Seq<(Seq<char>, JsonValView)>>,
}

pub struct AiDirView {
    pub target_uid: Seq<char>,
    pub action: Seq<char>,
    pub provider: Option<Seq<char>>,
    pub timestamp: Option<u64>,
    pub meta: Option<Seq<(Seq<char>, JsonValView)>>,
}

impl View for NodeDirective {
    type V = NodeDirView;

    open spec fn view(&self) -> NodeDirView {
        NodeDirView {
            id: self.id@,
            uid: opt_str_view(self.uid),
            x: self.x,
            y: self.y,
            kind: opt_str_view(self.kind),
            meta: crate::types::opt_view(self.meta),
        }
    }
}

impl View for EdgeDirective {
    type V = EdgeDirView;

    open spec fn view(&self) -> EdgeDirView {
        EdgeDirView {
            eid: opt_str_view(self.eid),
            source: opt_str_view(self.source),
            target: opt_str_view(self.target),
            label: opt_str_view(self.label),
            meta: crate::types::opt_view(self.meta),
        }
    }
}

impl View for AiDirective {
    type V = AiDirView;

    open spec fn view(&self) -> AiDirView {
        AiDirView {
            target_uid: self.target_uid@,
            action: self.action@,
            provider: opt_str_view(self.provider),
            timestamp: self.timestamp,
            meta: crate::types::opt_view(self.meta),
        }
    }
}

// ---------------------------------------------------------------------------
// Specification
// ---------------------------------------------------------------------------

/// Splits a directive line into its key and its body: `%%`, whitespace,
/// the marker, whitespace, a key of id characters, whitespace, then a body
/// running from a `{` to the end of the line.
pub open spec fn directive_parts(line: Seq<char>, marker: Seq<char>) -> Option<
    (Seq<char>, Seq<char>),
> {
    if !lit_at_spec(line, "%%"@, 0) {
        None
    } else {
        let a = ws_end(line, 2);
        if !lit_at_spec(line, marker, a) {
            None
        } else {
            let b = ws_end(line, a + marker.len());
            let e = id_end(line, b);
            if !(0 <= b < e) {
                None
            } else {
                let c = ws_end(line, e);
                if 0 <= c < line.len() && line[c] == '{' {
                    Some((line.subrange(b, e), line.subrange(c, line.len() as int)))
                } else {
                    None
                }
            }
        }
    }
}

/// A string-valued member.
pub open spec fn json_str_field(
    m: Seq<(Seq<char>, JsonValView)>,
    k: Seq<char>,
) -> Option<Seq<char>> {
    match obj_get_spec(m, k) {
        Some(JsonValView::Str(s)) => Some(s),
        _ => None,
    }
}

/// A number-valued member coerced to a coordinate.
pub open spec fn json_i32_field(m: Seq<(Seq<char>, JsonValView)>, k: Seq<char>) -> Option<i32> {
    match obj_get_spec(m, k) {
        Some(JsonValView::Num(t)) => num_coerce_spec(t),
        _ => None,
    }
}

/// A number-valued member read as an unsigned 64-bit integer.
pub open spec fn json_u64_field(m: Seq<(Seq<char>, JsonValView)>, k: Seq<char>) -> Option<u64> {
    match obj_get_spec(m, k) {
        Some(JsonValView::Num(t)) => match num_u64_spec(t, 0, 0) {
            Some(n) => Some(n as u64),
            None => None,
        },
        _ => None,
    }
}

/// What a `@node:` line parses to.
pub open spec fn node_directive_spec(line: Seq<char>) -> Option<NodeDirView> {
    match directive_parts(line, "@node:"@) {
        None => None,
        Some((id, body)) => match body_object_spec(body) {
            None => None,
            Some(m) => Some(
                NodeDirView {
                    id: id,
                    uid: json_str_field(m, "uid"@),
                    x: json_i32_field(m, "x"@),
                    y: json_i32_field(m, "y"@),
                    kind: json_str_field(m, "kind"@),
                    meta: Some(m),
                },
            ),
        },
    }
}

/// What an `@edge:` line parses to. The key only addresses the line; the
/// edge's identity is the body's optional `eid` member.
pub open spec fn edge_directive_spec(line: Seq<char>) -> Option<EdgeDirView> {
    match directive_parts(line, "@edge:"@) {
        None => None,
        Some((id, body)) => match body_object_spec(body) {
            None => None,
            Some(m) => Some(
                EdgeDirView {
                    eid: json_str_field(m, "eid"@),
                    source: json_str_field(m, "source"@),
                    target: json_str_field(m, "target"@),
                    label: json_str_field(m, "label"@),
                    meta: Some(m),
                },
            ),
        },
    }
}

/// What an `@ai:` line parses to; the action is required.
pub open spec fn ai_directive_spec(line: Seq<char>) -> Option<AiDirView> {
    match directive_parts(line, "@ai:"@) {
        None => None,
        Some((id, body)) => match body_object_spec(body) {
            None => None,
            Some(m) => match json_str_field(m, "action"@) {
                None => None,
                Some(action) => Some(
                    AiDirView {
                        target_uid: id,
                        action: action,
                        provider: json_str_field(m, "provider"@),
                        timestamp: json_u64_field(m, "timestamp"@),
                        meta: Some(m),
                    },
                ),
            },
        },
    }
}

// ---------------------------------------------------------------------------
// Executable parsers
// ---------------------------------------------------------------------------

/// Split a directive line into key and body.
pub(crate) fn split_directive(v: &Vec<char>, marker: &str) -> (r: Option<(Vec<char>, Vec<char>)>)
    ensures
        match r {
            Some(p) => directive_parts(v@, marker@) == Some((p.0@, p.1@)),
            None => directive_parts(v@, marker@) is None,
        },
{
    if !lit_at(v, 0, "%%") {
        return None;
    }
    proof {
        reveal_strlit("%%");
    }
    let a = skip_ws(v, 2);
    if !lit_at(v, a, marker) {
        return None;
    }
    let mln = marker.unicode_len();
    assert(a + mln <= v.len());
    let b = skip_ws(v, a + mln);
    let e = skip_id(v, b);
    if e <= b {
        return None;
    }
    let c = skip_ws(v, e);
    if c < v.len() && v[c] == '{' {
        Some((subvec(v, b, e), subvec(v, c, v.len())))
    } else {
        None
    }
}

/// The string value at a key, if the member is a string.
fn get_str_field(m: &JsonObject, key: &str) -> (r: Option<String>)
    ensures
        opt_str_view(r) == json_str_field(m@, key@),
{
    match m.get(key) {
        Some(JsonValue::Str(s)) => Some(s.clone()),
        _ => None,
    }
}

/// The coordinate at a key, if the member is a number.
fn get_i32_field(m: &JsonObject, key: &str) -> (r: Option<i32>)
    ensures
        r == json_i32_field(m@, key@),
{
    match m.get(key) {
        Some(JsonValue::Num(t)) => num_coerce(t.as_str()),
        _ => None,
    }
}

/// The unsigned integer at a key, if the member is one.
fn get_u64_field(m: &JsonObject, key: &str) -> (r: Option<u64>)
    ensures
        r == json_u64_field(m@, key@),
{
    match m.get(key) {
        Some(JsonValue::Num(t)) => num_as_u64(t.as_str()),
        _ => None,
    }
}

/// Parse a node directive line:
/// `%% @node: ID {"uid":"n_xxx","x":100,"y":50,...}`.
pub fn parse_node_directive(line: &str) -> (r: Option<NodeDirective>)
    ensures
        match r {
            Some(d) => node_directive_spec(line@) == Some(d@),
            None => node_directive_spec(line@) is None,
        },
{
    let v = chars_vec(line);
    match split_directive(&v, "@node:") {
        None => None,
        Some((id, body)) => match parse_body(&body) {
            None => None,
            Some(m) => {
                let uid = get_str_field(&m, "uid");
                let x = get_i32_field(&m, "x");
                let y = get_i32_field(&m, "y");
                let kind = get_str_field(&m, "kind");
                Some(
                    NodeDirective { id: string_from_chars(&id), uid, x, y, kind, meta: Some(m) },
                )
            },
        },
    }
}

/// Parse an edge directive line:
/// `%% @edge: ID {"eid":"e_xxx","source":"n_1","target":"n_2",...}`.
pub fn parse_edge_directive(line: &str) -> (r: Option<EdgeDirective>)
    ensures
        match r {
            Some(d) => edge_directive_spec(line@) == Some(d@),
            None => edge_directive_spec(line@) is None,
        },
{
    let v = chars_vec(line);
    match split_directive(&v, "@edge:") {
        None => None,
        Some((_id, body)) => match parse_body(&body) {
            None => None,
            Some(m) => {
                let eid = get_str_field(&m, "eid");
                let source = get_str_field(&m, "source");
                let target = get_str_field(&m, "target");
                let label = get_str_field(&m, "label");
                Some(EdgeDirective { eid, source, target, label, meta: Some(m) })
            },
        },
    }
}

/// Parse an AI directive line:
/// `%% @ai: UID {"action":"summarize","provider":"gemini",...}`.
pub fn parse_ai_directive(line: &str) -> (r: Option<AiDirective>)
    ensures
        match r {
            Some(d) => ai_directive_spec(line@) == Some(d@),
            None => ai_directive_spec(line@) is None,
        },
{
    let v = chars_vec(line);
    match split_directive(&v, "@ai:") {
        None => None,
        Some((id, body)) => match parse_body(&body) {
            None => None,
            Some(m) => match get_str_field(&m, "action") {
                None => None,
                Some(action) => {
                    let provider = get_str_field(&m, "provider");
                    let timestamp = get_u64_field(&m, "timestamp");
                    Some(
                        AiDirective {
                            target_uid: string_from_chars(&id),
                            action,
                            provider,
                            timestamp,
                            meta: Some(m),
                        },
                    )
                },
            },
        },
    }
}

} // verus!
