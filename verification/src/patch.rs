//! Position patching: the interactive hot paths that move one node.
//!
//! `update_mermaidman_node` rewrites the node's directive line inside the
//! document text, appending one when none exists. `update_node_position`
//! runs the full parse/move/generate pipeline instead.

use vstd::prelude::*;
use vstd::string::StringExecFns;

use crate::directives::directive_parts;
use crate::json::{body_object_spec, obj_put, obj_put_spec, obj_view, push_object, JsonValView,
    JsonValue};
use crate::store::{alias_lookup, edges_view, find_node_idx, fold_upsert_edges, fold_upsert_nodes,
    moved_node, nodes_view, GraphStore};
use crate::text::{
    chars_vec, dec_int, find_char, find_char_from, push_all, push_dec_i64, push_lit,
    string_from_chars, strip_cr, subvec, ws_start_back,
};
use crate::types::{EdgeView, NodeView, UID};
use crate::writer::generate_spec;
use crate::Error;

verus! {

/// The body of the first node directive line for exactly this id.
pub open spec fn patch_match(content: Seq<char>, id: Seq<char>) -> Option<Seq<char>> {
    match directive_parts(content, "@node:"@) {
        Some((key, body)) => if key == id {
            Some(body)
        } else {
            None
        },
        None => None,
    }
}

/// The span of the first line whose directive matches, as (start, end)
/// positions in the raw text, the end excluding the newline.
pub open spec fn find_patch_line(s: Seq<char>, pos: int, id: Seq<char>) -> Option<(int, int)>
    decreases s.len() - pos,
{
    if !(0 <= pos <= s.len()) {
        None
    } else {
        let end = match find_char_from(s, '\n', pos) {
            Some(k) => k,
            None => s.len() as int,
        };
        if !(pos <= end <= s.len()) {
            None
        } else {
            let content = strip_cr(s.subrange(pos, end));
            if patch_match(content, id) is Some {
                Some((pos, end))
            } else if end >= s.len() {
                None
            } else {
                find_patch_line(s, end + 1, id)
            }
        }
    }
}

/// The replacement directive line: the parsed body with its coordinates
/// set, or a fresh body carrying just the position when the old body
/// cannot be read, so the document stays readable by its own grammar.
pub open spec fn repl_line_spec(content: Seq<char>, id: Seq<char>, x: i64, y: i64) -> Seq<char> {
    let body = patch_match(content, id)->Some_0;
    match body_object_spec(body) {
        Some(m) => "%% @node: "@ + id + " "@ + crate::json::ser_object_spec(
            obj_put_spec(
                obj_put_spec(m, "x"@, JsonValView::Num(dec_int(x as int))),
                "y"@,
                JsonValView::Num(dec_int(y as int)),
            ),
        ),
        None => fresh_line_spec(id, x, y),
    }
}

/// The fresh directive line appended when no line matches.
pub open spec fn fresh_line_spec(id: Seq<char>, x: i64, y: i64) -> Seq<char> {
    "%% @node: "@ + id + " "@ + crate::json::ser_object_spec(
        seq![
            ("x"@, JsonValView::Num(dec_int(x as int))),
            ("y"@, JsonValView::Num(dec_int(y as int))),
        ],
    )
}

/// The text trimmed of trailing whitespace.
pub open spec fn trim_end_spec(s: Seq<char>) -> Seq<char> {
    s.subrange(0, ws_start_back(s, s.len() as int))
}

/// The patched document text.
pub open spec fn update_doc_spec(text: Seq<char>, id: Seq<char>, x: i64, y: i64) -> Seq<char> {
    match find_patch_line(text, 0, id) {
        Some((a, b)) => text.subrange(0, a) + repl_line_spec(
            strip_cr(text.subrange(a, b)),
            id,
            x,
            y,
        ) + text.subrange(b, text.len() as int),
        None => {
            let t = trim_end_spec(text);
            (if t.len() > 0 {
                t + seq!['\n']
            } else {
                t
            }) + fresh_line_spec(id, x, y) + seq!['\n']
        },
    }
}

/// The body of a node directive line when its key is exactly `id`.
fn split_directive_for(line: &Vec<char>, id: &str) -> (r: Option<Vec<char>>)
    ensures
        match r {
            Some(b) => patch_match(line@, id@) == Some(b@),
            None => patch_match(line@, id@) is None,
        },
{
    match crate::directives::split_directive(line, "@node:") {
        Some((key, body)) => {
            let ks = string_from_chars(&key);
            if crate::text::str_eq(ks.as_str(), id) {
                Some(body)
            } else {
                None
            }
        },
        None => None,
    }
}

/// Rewrite the first directive line for `node_id` with the new position,
/// or append one; the rest of the text is kept verbatim.
#[verifier::loop_isolation(false)]
#[verifier::rlimit(100)]
pub fn update_mermaidman_node(input: &str, node_id: &str, x: i64, y: i64) -> (r: String)
    ensures
        r@ == update_doc_spec(input@, node_id@, x, y),
{
    let v = chars_vec(input);
    let idv = chars_vec(node_id);
    let mut pos: usize = 0;
    loop
        invariant
            0 <= pos <= v@.len(),
            find_patch_line(v@, 0, node_id@) == find_patch_line(v@, pos as int, node_id@),
        decreases v@.len() + 1 - pos,
    {
        let end = match find_char(&v, '\n', pos) {
            Some(k) => k,
            None => v.len(),
        };
        let mut content = subvec(&v, pos, end);
        if content.len() > 0 && content[content.len() - 1] == '\r' {
            content.pop();
        }
        proof {
            assert(content@ == strip_cr(v@.subrange(pos as int, end as int)));
        }
        let matched = split_directive_for(&content, node_id);
        match matched {
            Some(body) => {
                // splice: prefix + replacement + suffix
                let mut out = subvec(&v, 0, pos);
                match crate::json::parse_body(&body) {
                    Some(m) => {
                        let mut entries = m.entries;
                        let mut xv: Vec<char> = Vec::new();
                        push_dec_i64(&mut xv, x);
                        obj_put(
                            &mut entries,
                            String::from_str("x"),
                            JsonValue::Num(string_from_chars(&xv)),
                        );
                        let mut yv: Vec<char> = Vec::new();
                        push_dec_i64(&mut yv, y);
                        obj_put(
                            &mut entries,
                            String::from_str("y"),
                            JsonValue::Num(string_from_chars(&yv)),
                        );
                        push_lit(&mut out, "%% @node: ");
                        push_all(&mut out, &idv);
                        push_lit(&mut out, " ");
                        push_object(&mut out, &entries);
                    },
                    None => {
                        push_lit(&mut out, "%% @node: ");
                        push_all(&mut out, &idv);
                        push_lit(&mut out, " ");
                        let mut entries: Vec<(String, JsonValue)> = Vec::new();
                        let mut xv: Vec<char> = Vec::new();
                        push_dec_i64(&mut xv, x);
                        entries.push((
                            String::from_str("x"),
                            JsonValue::Num(string_from_chars(&xv)),
                        ));
                        let mut yv: Vec<char> = Vec::new();
                        push_dec_i64(&mut yv, y);
                        entries.push((
                            String::from_str("y"),
                            JsonValue::Num(string_from_chars(&yv)),
                        ));
                        proof {
                            assert(obj_view(entries@) =~= seq![
                                ("x"@, JsonValView::Num(dec_int(x as int))),
                                ("y"@, JsonValView::Num(dec_int(y as int))),
                            ]);
                        }
                        push_object(&mut out, &entries);
                    },
                }
                let suffix = subvec(&v, end, v.len());
                push_all(&mut out, &suffix);
                proof {
                    assert(out@ =~= update_doc_spec(input@, node_id@, x, y));
                }
                return string_from_chars(&out);
            },
            None => {
                if end >= v.len() {
                    break;
                }
                pos = end + 1;
            },
        }
    }
    // no matching line: append a fresh directive
    let mut hi = v.len();
    while hi > 0 && crate::text::is_ws(v[hi - 1])
        invariant
            0 <= hi <= v@.len(),
            ws_start_back(v@, v@.len() as int) == ws_start_back(v@, hi as int),
        decreases hi,
    {
        hi = hi - 1;
    }
    let mut out = subvec(&v, 0, hi);
    if hi > 0 {
        out.push('\n');
    }
    push_lit(&mut out, "%% @node: ");
    push_all(&mut out, &idv);
    push_lit(&mut out, " ");
    let mut entries: Vec<(String, JsonValue)> = Vec::new();
    let mut xv: Vec<char> = Vec::new();
    push_dec_i64(&mut xv, x);
    entries.push((String::from_str("x"), JsonValue::Num(string_from_chars(&xv))));
    let mut yv: Vec<char> = Vec::new();
    push_dec_i64(&mut yv, y);
    entries.push((String::from_str("y"), JsonValue::Num(string_from_chars(&yv))));
    proof {
        assert(obj_view(entries@) =~= seq![
            ("x"@, JsonValView::Num(dec_int(x as int))),
            ("y"@, JsonValView::Num(dec_int(y as int))),
        ]);
    }
    push_object(&mut out, &entries);
    out.push('\n');
    proof {
        assert(out@ =~= update_doc_spec(input@, node_id@, x, y));
    }
    string_from_chars(&out)
}

/// What one position update does to a store's node table, through the
/// alias.
pub open spec fn position_updated(
    ns1: Seq<NodeView>,
    a1: Seq<(Seq<char>, Seq<char>)>,
    key: Seq<char>,
    x: i64,
    y: i64,
    ns2: Seq<NodeView>,
) -> bool {
    match alias_lookup(a1, key) {
        Some(u) => match find_node_idx(ns1, u) {
            Some(i) => ns2.len() == ns1.len() && moved_node(ns1[i], ns2[i], x, y) && (forall|j: int|
                0 <= j < ns1.len() && j != i ==> ns2[j] == #[trigger] ns1[j]),
            None => ns2 == ns1,
        },
        None => ns2 == ns1,
    }
}

/// Everything a position update through the full pipeline promises: the
/// witnesses are the parsed tables and the moved node table.
pub open spec fn position_update_rel(
    text: Seq<char>,
    key: Seq<char>,
    x: i64,
    y: i64,
    pns: Seq<NodeView>,
    pes: Seq<EdgeView>,
    ns2: Seq<NodeView>,
    out: Seq<char>,
) -> bool {
    let d = crate::document::doc_of(text);
    let folded = fold_upsert_nodes(pns);
    &&& pns.len() == d.topo_nodes.len()
    &&& (forall|i: int|
        0 <= i < pns.len() ==> crate::document::resolved_parsed_node(d, i, #[trigger] pns[i]))
    &&& pes.len() == d.topo_edges.len()
    &&& (forall|j: int|
        0 <= j < pes.len() ==> crate::document::resolved_parsed_edge(d, pns, j, #[trigger] pes[j]))
    &&& position_updated(folded.0, folded.1, key, x, y, ns2)
    &&& out == generate_spec(ns2, fold_upsert_edges(pes), "TD"@)
}

/// Parse a document, move one node by its mermaid id, and regenerate.
pub fn update_node_position(input: &str, node_id: &str, x: i64, y: i64) -> (r: Result<
    String,
    Error,
>)
    ensures
        r is Ok,
        (exists|pns: Seq<NodeView>, pes: Seq<EdgeView>, ns2: Seq<NodeView>|
            position_update_rel(input@, node_id@, x, y, pns, pes, ns2, r->Ok_0@)),
{
    let parsed = match crate::document::parse_document(input) {
        Ok(p) => p,
        Err(e) => {
            return Err(e);
        },
    };
    let ghost pns = nodes_view(parsed.nodes@);
    let ghost pes = edges_view(parsed.edges@);
    let mut store = GraphStore::from_parsed(parsed.nodes, parsed.edges);
    match store.alias.get_uid(node_id) {
        Some(uid) => {
            let u2 = UID::from_str(uid.0.as_str());
            store.move_node(&u2, x, y);
        },
        None => {},
    }
    let text = crate::writer::generate_mermaidman(&store, "TD");
    proof {
        let folded = fold_upsert_nodes(pns);
        assert(position_updated(folded.0, folded.1, node_id@, x, y, nodes_view(store.nodes@)));
        assert(position_update_rel(
            input@,
            node_id@,
            x,
            y,
            pns,
            pes,
            nodes_view(store.nodes@),
            text@,
        ));
    }
    let out: Result<String, Error> = Ok(text);
    proof {
        assert(exists|pns2: Seq<NodeView>, pes2: Seq<EdgeView>, ns2: Seq<NodeView>|
            position_update_rel(input@, node_id@, x, y, pns2, pes2, ns2, out->Ok_0@)) by {
            assert(position_update_rel(
                input@,
                node_id@,
                x,
                y,
                pns,
                pes,
                nodes_view(store.nodes@),
                out->Ok_0@,
            ));
        }
    }
    out
}

} // verus!
