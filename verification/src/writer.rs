//! The canonical writer: deterministic text regeneration from a store.
//!
//! Each directive body is a JSON object with a fixed key order, so that
//! regeneration is diff-minimal and feeding generated text back through
//! the assembler and the writer reproduces it byte for byte. Two choices
//! make that regeneration a true fixed point, given that the assembler
//! retains each directive's whole body as the entity's meta and matches
//! edge directives on the (source, target) text-id pair:
//! - typed fields are written from the entity, and the retained meta
//!   contributes only the members no typed field owns, spliced inline at
//!   the meta position; echoing the whole retained body under a verbatim
//!   `meta` member would wrap the previous body one level deeper on every
//!   pass and grow without bound;
//! - edge endpoints are written under their nodes' text ids, so that a
//!   regenerated document re-matches its own edge directives instead of
//!   re-drawing each edge's identity.

use vstd::prelude::*;

use crate::json::{obj_view, push_object, ser_object_spec, JsonValView, JsonValue};
use crate::store::{
    edge_active_pred, edges_view, find_node_idx, node_active_pred, nodes_view, GraphStore,
};
use crate::text::{
    chars_vec, dec_int, dec_nat, push_all, push_dec_i64, push_dec_u64, push_lit, str_eq,
    string_from_chars,
};
use crate::types::{
    CodeMetaView, DiagramMetaView, Edge, EdgeStyleView, EdgeView, MediaMetaView, Node, NodeKind,
    NodeStyleView, NodeView,
};

verus! {

/// The canonical name of a node kind.
pub open spec fn kind_name(k: NodeKind) -> Seq<char> {
    match k {
        NodeKind::Card => "card"@,
        NodeKind::Note => "note"@,
        NodeKind::Code => "code"@,
        NodeKind::Media => "media"@,
        NodeKind::Markdown => "markdown"@,
        NodeKind::Diagram => "diagram"@,
        NodeKind::Oembed => "oembed"@,
    }
}

/// The canonical name of an arrow kind.
pub open spec fn arrow_name(a: crate::types::ArrowKind) -> Seq<char> {
    match a {
        crate::types::ArrowKind::Default => "default"@,
        crate::types::ArrowKind::NoHead => "none"@,
    }
}

pub open spec fn opt_str_entry(k: Seq<char>, v: Option<Seq<char>>) -> Seq<(Seq<char>, JsonValView)> {
    match v {
        Some(s) => seq![(k, JsonValView::Str(s))],
        None => Seq::empty(),
    }
}

/// The members of a node style object, in field order.
pub open spec fn style_entries(st: NodeStyleView) -> Seq<(Seq<char>, JsonValView)> {
    opt_str_entry("stroke"@, st.stroke) + opt_str_entry("fill"@, st.fill) + opt_str_entry(
        "border"@,
        st.border,
    )
}

/// The members of an edge style object, in field order.
pub open spec fn edge_style_entries(st: EdgeStyleView) -> Seq<(Seq<char>, JsonValView)> {
    opt_str_entry("stroke"@, st.stroke) + (match st.dashed {
        Some(b) => seq![("dashed"@, JsonValView::Bool(b))],
        None => Seq::empty(),
    }) + (match st.arrow {
        Some(a) => seq![("arrow"@, JsonValView::Str(arrow_name(a)))],
        None => Seq::empty(),
    })
}

/// The members of a code metadata object, in field order.
pub open spec fn code_entries(c: CodeMetaView) -> Seq<(Seq<char>, JsonValView)> {
    opt_str_entry("language"@, c.language) + opt_str_entry("detected_language"@, c.detected_language)
        + opt_str_entry("content"@, c.content)
}

/// The members of a media metadata object, in field order.
pub open spec fn media_entries(m: MediaMetaView) -> Seq<(Seq<char>, JsonValView)> {
    seq![("src"@, JsonValView::Str(m.src))] + opt_str_entry("alt"@, m.alt) + opt_str_entry(
        "poster"@,
        m.poster,
    ) + (match m.duration {
        Some(d) => seq![("duration"@, JsonValView::Num(dec_nat(d as int)))],
        None => Seq::empty(),
    }) + opt_str_entry("blob_id"@, m.blob_id)
}

/// The members of a nested diagram object, in field order.
pub open spec fn diagram_entries(dm: DiagramMetaView) -> Seq<(Seq<char>, JsonValView)> {
    opt_str_entry("title"@, dm.title) + opt_str_entry("text"@, dm.diagram_text)
}

/// The body keys the writer owns: they are serialized from the typed
/// fields, so the retained meta's copies of them are not echoed.
pub open spec fn reserved_node_key(k: Seq<char>) -> bool {
    k == "uid"@ || k == "x"@ || k == "y"@ || k == "kind"@ || k == "style"@ || k == "code"@ || k
        == "media"@ || k == "diagram"@ || k == "markdown"@
}

/// The retained meta members that are not owned by a typed field, in
/// order. Writing these inline keeps regeneration a fixed point: parsing
/// the generated body retains exactly these members again.
pub open spec fn node_extra_entries(
    m: Seq<(Seq<char>, JsonValView)>,
    i: int,
    acc: Seq<(Seq<char>, JsonValView)>,
) -> Seq<(Seq<char>, JsonValView)>
    decreases m.len() - i,
{
    if !(0 <= i < m.len()) {
        acc
    } else {
        node_extra_entries(m, i + 1, if reserved_node_key(m[i].0) {
            acc
        } else {
            acc.push(m[i])
        })
    }
}

/// The body keys the edge writer owns.
pub open spec fn reserved_edge_key(k: Seq<char>) -> bool {
    k == "eid"@ || k == "source"@ || k == "target"@ || k == "label"@ || k == "style"@
}

/// The retained edge meta members not owned by a typed field.
pub open spec fn edge_extra_entries(
    m: Seq<(Seq<char>, JsonValView)>,
    i: int,
    acc: Seq<(Seq<char>, JsonValView)>,
) -> Seq<(Seq<char>, JsonValView)>
    decreases m.len() - i,
{
    if !(0 <= i < m.len()) {
        acc
    } else {
        edge_extra_entries(m, i + 1, if reserved_edge_key(m[i].0) {
            acc
        } else {
            acc.push(m[i])
        })
    }
}

/// The members of a node directive body, in the fixed canonical order:
/// uid, x, y, kind (omitted when default), style (omitted when empty),
/// code, media, diagram, markdown, meta.
pub open spec fn node_body_entries(n: NodeView) -> Seq<(Seq<char>, JsonValView)> {
    seq![("uid"@, JsonValView::Str(n.uid))] + (match n.x {
        Some(x) => seq![("x"@, JsonValView::Num(dec_int(x as int)))],
        None => Seq::empty(),
    }) + (match n.y {
        Some(y) => seq![("y"@, JsonValView::Num(dec_int(y as int)))],
        None => Seq::empty(),
    }) + (if n.kind != NodeKind::Card {
        seq![("kind"@, JsonValView::Str(kind_name(n.kind)))]
    } else {
        Seq::empty()
    }) + (match n.style {
        Some(st) => if st.stroke is Some || st.fill is Some || st.border is Some {
            seq![("style"@, JsonValView::Raw(ser_object_spec(style_entries(st))))]
        } else {
            Seq::empty()
        },
        None => Seq::empty(),
    }) + (match n.code {
        Some(c) => seq![("code"@, JsonValView::Raw(ser_object_spec(code_entries(c))))],
        None => Seq::empty(),
    }) + (match n.media {
        Some(m) => seq![("media"@, JsonValView::Raw(ser_object_spec(media_entries(m))))],
        None => Seq::empty(),
    }) + (match n.diagram {
        Some(dm) => seq![("diagram"@, JsonValView::Raw(ser_object_spec(diagram_entries(dm))))],
        None => Seq::empty(),
    }) + opt_str_entry("markdown"@, n.markdown) + (match n.meta {
        Some(m) => node_extra_entries(m, 0, Seq::empty()),
        None => Seq::empty(),
    })
}

/// The text id an endpoint is written under: the mermaid id of the node
/// row carrying the UID, or the stored identifier itself when no row
/// does. Naming endpoints by their text ids lets a regenerated document
/// re-match its own edge directives, which match on the (source, target)
/// mermaid-id pair.
pub open spec fn endpoint_name(ns: Seq<NodeView>, u: Seq<char>) -> Seq<char> {
    match find_node_idx(ns, u) {
        Some(i) => ns[i].mermaid_id,
        None => u,
    }
}

/// The members of an edge directive body, in the fixed canonical order:
/// eid, source, target, label, style (omitted when empty), meta.
pub open spec fn edge_body_entries(
    e: EdgeView,
    src_name: Seq<char>,
    tgt_name: Seq<char>,
) -> Seq<(Seq<char>, JsonValView)> {
    seq![
        ("eid"@, JsonValView::Str(e.eid)),
        ("source"@, JsonValView::Str(src_name)),
        ("target"@, JsonValView::Str(tgt_name)),
    ] + opt_str_entry("label"@, e.label) + (match e.style {
        Some(st) => if st.stroke is Some || st.dashed is Some || st.arrow is Some {
            seq![("style"@, JsonValView::Raw(ser_object_spec(edge_style_entries(st))))]
        } else {
            Seq::empty()
        },
        None => Seq::empty(),
    }) + (match e.meta {
        Some(m) => edge_extra_entries(m, 0, Seq::empty()),
        None => Seq::empty(),
    })
}

/// The canonical JSON body of a node directive.
pub open spec fn node_body_spec(n: NodeView) -> Seq<char> {
    ser_object_spec(node_body_entries(n))
}

/// The canonical JSON body of an edge directive, its endpoints written
/// under the given text ids.
pub open spec fn edge_body_spec(e: EdgeView, src_name: Seq<char>, tgt_name: Seq<char>) -> Seq<
    char,
> {
    ser_object_spec(edge_body_entries(e, src_name, tgt_name))
}

/// A node directive line.
pub open spec fn node_directive_line(n: NodeView) -> Seq<char> {
    "%% @node: "@ + n.mermaid_id + " "@ + node_body_spec(n)
}

/// An edge directive line under a caller-chosen key.
pub open spec fn edge_directive_keyed(
    ns: Seq<NodeView>,
    e: EdgeView,
    key: Seq<char>,
) -> Seq<char> {
    "%% @edge: "@ + key + " "@ + edge_body_spec(
        e,
        endpoint_name(ns, e.source),
        endpoint_name(ns, e.target),
    )
}

/// An edge directive line, keyed by its 1-based position.
pub open spec fn edge_directive_line(ns: Seq<NodeView>, e: EdgeView, num: int) -> Seq<char> {
    "%% @edge: e"@ + dec_nat(num) + " "@ + edge_body_spec(
        e,
        endpoint_name(ns, e.source),
        endpoint_name(ns, e.target),
    )
}

/// A node declaration: the id alone, or with its label when the label
/// differs from the id.
pub open spec fn decl_spec(n: NodeView) -> Seq<char> {
    match n.label {
        Some(l) => if l != n.mermaid_id {
            n.mermaid_id + "["@ + l + "]"@
        } else {
            n.mermaid_id
        },
        None => n.mermaid_id,
    }
}

/// An edge's arrow, carrying its label when it has one.
pub open spec fn arrow_spec(e: EdgeView) -> Seq<char> {
    match e.label {
        Some(l) => "--|"@ + l + "|-->"@,
        None => "-->"@,
    }
}

/// The topology lines of the active edges, in order; an edge whose
/// endpoints are not both rows of the table yields no line.
pub open spec fn edge_lines(
    ns: Seq<NodeView>,
    acte: Seq<EdgeView>,
    j: int,
    acc: Seq<Seq<char>>,
) -> Seq<Seq<char>>
    decreases acte.len() - j,
{
    if !(0 <= j < acte.len()) {
        acc
    } else {
        let e = acte[j];
        let acc1 = match (find_node_idx(ns, e.source), find_node_idx(ns, e.target)) {
            (Some(si), Some(ti)) => acc.push(
                decl_spec(ns[si]) + " "@ + arrow_spec(e) + " "@ + decl_spec(ns[ti]),
            ),
            _ => acc,
        };
        edge_lines(ns, acte, j + 1, acc1)
    }
}

/// Is this UID an endpoint of any active edge?
pub open spec fn connected_spec(acte: Seq<EdgeView>, uid: Seq<char>) -> bool {
    exists|j: int| 0 <= j < acte.len() && (#[trigger] acte[j].source == uid || acte[j].target == uid)
}

/// Declaration lines for the active nodes no active edge touches.
pub open spec fn orphan_lines(
    actn: Seq<NodeView>,
    acte: Seq<EdgeView>,
    i: int,
    acc: Seq<Seq<char>>,
) -> Seq<Seq<char>>
    decreases actn.len() - i,
{
    if !(0 <= i < actn.len()) {
        acc
    } else {
        let acc1 = if connected_spec(acte, actn[i].uid) {
            acc
        } else {
            acc.push(decl_spec(actn[i]))
        };
        orphan_lines(actn, acte, i + 1, acc1)
    }
}

/// Node directive lines, in store order.
pub open spec fn node_dir_lines(actn: Seq<NodeView>, i: int, acc: Seq<Seq<char>>) -> Seq<Seq<char>>
    decreases actn.len() - i,
{
    if !(0 <= i < actn.len()) {
        acc
    } else {
        node_dir_lines(actn, i + 1, acc.push(node_directive_line(actn[i])))
    }
}

/// Edge directive lines, numbered positionally from 1.
pub open spec fn edge_dir_lines(
    ns: Seq<NodeView>,
    acte: Seq<EdgeView>,
    j: int,
    acc: Seq<Seq<char>>,
) -> Seq<Seq<char>>
    decreases acte.len() - j,
{
    if !(0 <= j < acte.len()) {
        acc
    } else {
        edge_dir_lines(ns, acte, j + 1, acc.push(edge_directive_line(ns, acte[j], j + 1)))
    }
}

/// The whole generated document, as a function of the store's tables.
pub open spec fn generate_spec(ns: Seq<NodeView>, es: Seq<EdgeView>, dir: Seq<char>) -> Seq<char> {
    let actn = ns.filter(node_active_pred());
    let acte = es.filter(edge_active_pred());
    let head: Seq<Seq<char>> = seq!["graph "@ + dir, Seq::empty()];
    let l1 = edge_lines(ns, acte, 0, head);
    let l2 = orphan_lines(actn, acte, 0, l1);
    let l3 = l2.push(Seq::empty());
    let l4 = node_dir_lines(actn, 0, l3);
    let l5 = edge_dir_lines(ns, acte, 0, l4);
    crate::document::join_nl(l5, 0, Seq::empty())
}

/// The topology-only document.
pub open spec fn generate_topology_spec(
    ns: Seq<NodeView>,
    es: Seq<EdgeView>,
    dir: Seq<char>,
) -> Seq<char> {
    let actn = ns.filter(node_active_pred());
    let acte = es.filter(edge_active_pred());
    let head: Seq<Seq<char>> = seq!["graph "@ + dir];
    let l1 = edge_lines(ns, acte, 0, head);
    let l2 = orphan_lines(actn, acte, 0, l1);
    crate::document::join_nl(l2, 0, Seq::empty())
}

// ---------------------------------------------------------------------------
// Executable writer
// ---------------------------------------------------------------------------

fn kind_string(k: NodeKind) -> (r: String)
    ensures
        r@ == kind_name(k),
{
    match k {
        NodeKind::Card => String::from_str("card"),
        NodeKind::Note => String::from_str("note"),
        NodeKind::Code => String::from_str("code"),
        NodeKind::Media => String::from_str("media"),
        NodeKind::Markdown => String::from_str("markdown"),
        NodeKind::Diagram => String::from_str("diagram"),
        NodeKind::Oembed => String::from_str("oembed"),
    }
}

fn push_opt_str_entry(
    entries: &mut Vec<(String, JsonValue)>,
    key: &str,
    v: &Option<String>,
)
    ensures
        obj_view(final(entries)@) == obj_view(old(entries)@) + opt_str_entry(
            key@,
            crate::types::opt_str_view(*v),
        ),
{
    let ghost e0 = obj_view(entries@);
    match v {
        Some(s) => {
            entries.push((String::from_str(key), JsonValue::Str(s.clone())));
            proof {
                assert(obj_view(entries@) =~= e0 + opt_str_entry(
                    key@,
                    crate::types::opt_str_view(*v),
                ));
            }
        },
        None => {
            proof {
                assert(obj_view(entries@) =~= e0 + opt_str_entry(
                    key@,
                    crate::types::opt_str_view(*v),
                ));
            }
        },
    }
}

/// An object rendered as a verbatim member value.
fn raw_of(entries: &Vec<(String, JsonValue)>) -> (r: JsonValue)
    ensures
        r@ == JsonValView::Raw(ser_object_spec(obj_view(entries@))),
{
    let mut sv: Vec<char> = Vec::new();
    push_object(&mut sv, entries);
    proof {
        assert(sv@ =~= ser_object_spec(obj_view(entries@)));
    }
    JsonValue::Raw(string_from_chars(&sv))
}

/// Append the retained meta's non-reserved members.
#[verifier::loop_isolation(false)]
fn push_node_extras(entries: &mut Vec<(String, JsonValue)>, m: &crate::json::JsonObject)
    ensures
        obj_view(final(entries)@) == obj_view(old(entries)@) + node_extra_entries(
            m@,
            0,
            Seq::empty(),
        ),
{
    let ghost e0 = obj_view(entries@);
    let mut k: usize = 0;
    proof {
        assert(e0 + Seq::<(Seq<char>, JsonValView)>::empty() =~= e0);
        assert(obj_view(entries@).subrange(e0.len() as int, obj_view(entries@).len() as int)
            =~= Seq::<(Seq<char>, JsonValView)>::empty());
        assert(obj_view(entries@).subrange(0, e0.len() as int) =~= e0);
    }
    while k < m.entries.len()
        invariant
            0 <= k <= m.entries@.len(),
            e0 + node_extra_entries(m@, 0, Seq::empty()) == e0 + node_extra_entries(
                m@,
                k as int,
                obj_view(entries@).subrange(e0.len() as int, obj_view(entries@).len() as int),
            ),
            obj_view(entries@).len() >= e0.len(),
            obj_view(entries@).subrange(0, e0.len() as int) == e0,
        decreases m.entries@.len() - k,
    {
        let ghost tail0 = obj_view(entries@).subrange(
            e0.len() as int,
            obj_view(entries@).len() as int,
        );
        let key = &m.entries[k].0;
        let reserved = str_eq(key.as_str(), "uid") || str_eq(key.as_str(), "x") || str_eq(
            key.as_str(),
            "y",
        ) || str_eq(key.as_str(), "kind") || str_eq(key.as_str(), "style") || str_eq(
            key.as_str(),
            "code",
        ) || str_eq(key.as_str(), "media") || str_eq(key.as_str(), "diagram") || str_eq(
            key.as_str(),
            "markdown",
        );
        proof {
            assert(m@[k as int].0 == m.entries@[k as int].0@);
            assert(reserved == reserved_node_key(m@[k as int].0));
        }
        if !reserved {
            let kv = key.clone();
            let vv = m.entries[k].1.clone();
            entries.push((kv, vv));
            proof {
                assert(obj_view(entries@).subrange(0, e0.len() as int) =~= e0);
                assert(obj_view(entries@).subrange(
                    e0.len() as int,
                    obj_view(entries@).len() as int,
                ) =~= tail0.push(m@[k as int]));
            }
        }
        k = k + 1;
    }
    proof {
        assert(obj_view(entries@) =~= e0 + obj_view(entries@).subrange(
            e0.len() as int,
            obj_view(entries@).len() as int,
        ));
    }
}

/// Append the retained edge meta's non-reserved members.
#[verifier::loop_isolation(false)]
fn push_edge_extras(entries: &mut Vec<(String, JsonValue)>, m: &crate::json::JsonObject)
    ensures
        obj_view(final(entries)@) == obj_view(old(entries)@) + edge_extra_entries(
            m@,
            0,
            Seq::empty(),
        ),
{
    let ghost e0 = obj_view(entries@);
    let mut k: usize = 0;
    proof {
        assert(e0 + Seq::<(Seq<char>, JsonValView)>::empty() =~= e0);
        assert(obj_view(entries@).subrange(e0.len() as int, obj_view(entries@).len() as int)
            =~= Seq::<(Seq<char>, JsonValView)>::empty());
        assert(obj_view(entries@).subrange(0, e0.len() as int) =~= e0);
    }
    while k < m.entries.len()
        invariant
            0 <= k <= m.entries@.len(),
            e0 + edge_extra_entries(m@, 0, Seq::empty()) == e0 + edge_extra_entries(
                m@,
                k as int,
                obj_view(entries@).subrange(e0.len() as int, obj_view(entries@).len() as int),
            ),
            obj_view(entries@).len() >= e0.len(),
            obj_view(entries@).subrange(0, e0.len() as int) == e0,
        decreases m.entries@.len() - k,
    {
        let ghost tail0 = obj_view(entries@).subrange(
            e0.len() as int,
            obj_view(entries@).len() as int,
        );
        let key = &m.entries[k].0;
        let reserved = str_eq(key.as_str(), "eid") || str_eq(key.as_str(), "source") || str_eq(
            key.as_str(),
            "target",
        ) || str_eq(key.as_str(), "label") || str_eq(key.as_str(), "style");
        proof {
            assert(m@[k as int].0 == m.entries@[k as int].0@);
            assert(reserved == reserved_edge_key(m@[k as int].0));
        }
        if !reserved {
            let kv = key.clone();
            let vv = m.entries[k].1.clone();
            entries.push((kv, vv));
            proof {
                assert(obj_view(entries@).subrange(0, e0.len() as int) =~= e0);
                assert(obj_view(entries@).subrange(
                    e0.len() as int,
                    obj_view(entries@).len() as int,
                ) =~= tail0.push(m@[k as int]));
            }
        }
        k = k + 1;
    }
    proof {
        assert(obj_view(entries@) =~= e0 + obj_view(entries@).subrange(
            e0.len() as int,
            obj_view(entries@).len() as int,
        ));
    }
}

/// The style payload as a verbatim member value.
fn style_value(st: &crate::types::NodeStyle) -> (r: JsonValue)
    ensures
        r@ == JsonValView::Raw(ser_object_spec(style_entries(st@))),
{
    let mut sub: Vec<(String, JsonValue)> = Vec::new();
    proof {
        assert(obj_view(sub@) =~= Seq::<(Seq<char>, JsonValView)>::empty());
    }
    push_opt_str_entry(&mut sub, "stroke", &st.stroke);
    push_opt_str_entry(&mut sub, "fill", &st.fill);
    push_opt_str_entry(&mut sub, "border", &st.border);
    proof {
        assert(obj_view(sub@) =~= style_entries(st@));
    }
    raw_of(&sub)
}

/// The code payload as a verbatim member value.
fn code_value(c: &crate::types::CodeMeta) -> (r: JsonValue)
    ensures
        r@ == JsonValView::Raw(ser_object_spec(code_entries(c@))),
{
    let mut sub: Vec<(String, JsonValue)> = Vec::new();
    proof {
        assert(obj_view(sub@) =~= Seq::<(Seq<char>, JsonValView)>::empty());
    }
    push_opt_str_entry(&mut sub, "language", &c.language);
    push_opt_str_entry(&mut sub, "detected_language", &c.detected_language);
    push_opt_str_entry(&mut sub, "content", &c.content);
    proof {
        assert(obj_view(sub@) =~= code_entries(c@));
    }
    raw_of(&sub)
}

/// The media payload as a verbatim member value.
fn media_value(m: &crate::types::MediaMeta) -> (r: JsonValue)
    ensures
        r@ == JsonValView::Raw(ser_object_spec(media_entries(m@))),
{
    let mut sub: Vec<(String, JsonValue)> = Vec::new();
    sub.push((String::from_str("src"), JsonValue::Str(m.src.clone())));
    proof {
        assert(obj_view(sub@) =~= seq![("src"@, JsonValView::Str(m@.src))]);
    }
    push_opt_str_entry(&mut sub, "alt", &m.alt);
    push_opt_str_entry(&mut sub, "poster", &m.poster);
    let ghost s3 = obj_view(sub@);
    match m.duration {
        Some(dur) => {
            let mut dv: Vec<char> = Vec::new();
            push_dec_u64(&mut dv, dur);
            sub.push((String::from_str("duration"), JsonValue::Num(string_from_chars(&dv))));
            proof {
                assert(dv@ =~= dec_nat(dur as int));
            }
        },
        None => {},
    }
    proof {
        assert(obj_view(sub@) =~= s3 + (match m@.duration {
            Some(dd) => seq![("duration"@, JsonValView::Num(dec_nat(dd as int)))],
            None => Seq::<(Seq<char>, JsonValView)>::empty(),
        }));
    }
    let ghost s4 = obj_view(sub@);
    match &m.blob_id {
        Some(b) => {
            sub.push((String::from_str("blob_id"), JsonValue::Str(b.0.clone())));
        },
        None => {},
    }
    proof {
        assert(obj_view(sub@) =~= s4 + opt_str_entry("blob_id"@, m@.blob_id));
        assert(obj_view(sub@) =~= media_entries(m@));
    }
    raw_of(&sub)
}

/// The nested diagram payload as a verbatim member value.
fn diagram_value(dm: &crate::types::DiagramMeta) -> (r: JsonValue)
    ensures
        r@ == JsonValView::Raw(ser_object_spec(diagram_entries(dm@))),
{
    let mut sub: Vec<(String, JsonValue)> = Vec::new();
    proof {
        assert(obj_view(sub@) =~= Seq::<(Seq<char>, JsonValView)>::empty());
    }
    push_opt_str_entry(&mut sub, "title", &dm.title);
    push_opt_str_entry(&mut sub, "text", &dm.diagram_text);
    proof {
        assert(obj_view(sub@) =~= diagram_entries(dm@));
    }
    raw_of(&sub)
}

/// Serialize a node directive body to canonical JSON with the fixed key
/// order: uid, x, y, kind (omitted when default), style (omitted when
/// empty), code, media, diagram, markdown, then the retained meta's
/// members that no typed field owns, inline.
#[verifier::rlimit(100)]
#[verifier::spinoff_prover]
pub fn canonical_node_directive(node: &Node) -> (r: String)
    ensures
        r@ == node_body_spec(node@),
{
    let mut entries: Vec<(String, JsonValue)> = Vec::new();
    let ghost n = node@;
    entries.push((String::from_str("uid"), JsonValue::Str(node.uid.0.clone())));
    proof {
        assert(obj_view(entries@) =~= seq![("uid"@, JsonValView::Str(n.uid))]);
    }
    let ghost e1 = obj_view(entries@);
    match node.x {
        Some(x) => {
            let mut xv: Vec<char> = Vec::new();
            push_dec_i64(&mut xv, x);
            entries.push((String::from_str("x"), JsonValue::Num(string_from_chars(&xv))));
            proof {
                assert(xv@ =~= dec_int(x as int));
            }
        },
        None => {},
    }
    proof {
        assert(obj_view(entries@) =~= e1 + (match n.x {
            Some(x) => seq![("x"@, JsonValView::Num(dec_int(x as int)))],
            None => Seq::<(Seq<char>, JsonValView)>::empty(),
        }));
    }
    let ghost e2 = obj_view(entries@);
    match node.y {
        Some(y) => {
            let mut yv: Vec<char> = Vec::new();
            push_dec_i64(&mut yv, y);
            entries.push((String::from_str("y"), JsonValue::Num(string_from_chars(&yv))));
            proof {
                assert(yv@ =~= dec_int(y as int));
            }
        },
        None => {},
    }
    proof {
        assert(obj_view(entries@) =~= e2 + (match n.y {
            Some(y) => seq![("y"@, JsonValView::Num(dec_int(y as int)))],
            None => Seq::<(Seq<char>, JsonValView)>::empty(),
        }));
    }
    let ghost e3 = obj_view(entries@);
    if !(matches!(node.kind, NodeKind::Card)) {
        entries.push((String::from_str("kind"), JsonValue::Str(kind_string(node.kind))));
    }
    proof {
        assert(obj_view(entries@) =~= e3 + (if n.kind != NodeKind::Card {
            seq![("kind"@, JsonValView::Str(kind_name(n.kind)))]
        } else {
            Seq::<(Seq<char>, JsonValView)>::empty()
        }));
    }
    let ghost e4 = obj_view(entries@);
    match &node.style {
        Some(st) => {
            if st.stroke.is_some() || st.fill.is_some() || st.border.is_some() {
                let rv = style_value(st);
                entries.push((String::from_str("style"), rv));
            }
        },
        None => {},
    }
    proof {
        assert(obj_view(entries@) =~= e4 + (match n.style {
            Some(st) => if st.stroke is Some || st.fill is Some || st.border is Some {
                seq![("style"@, JsonValView::Raw(ser_object_spec(style_entries(st))))]
            } else {
                Seq::<(Seq<char>, JsonValView)>::empty()
            },
            None => Seq::<(Seq<char>, JsonValView)>::empty(),
        }));
    }
    let ghost e5 = obj_view(entries@);
    match &node.code {
        Some(c) => {
            let rv = code_value(c);
            entries.push((String::from_str("code"), rv));
        },
        None => {},
    }
    proof {
        assert(obj_view(entries@) =~= e5 + (match n.code {
            Some(c) => seq![("code"@, JsonValView::Raw(ser_object_spec(code_entries(c))))],
            None => Seq::<(Seq<char>, JsonValView)>::empty(),
        }));
    }
    let ghost e6 = obj_view(entries@);
    match &node.media {
        Some(m) => {
            let rv = media_value(m);
            entries.push((String::from_str("media"), rv));
        },
        None => {},
    }
    proof {
        assert(obj_view(entries@) =~= e6 + (match n.media {
            Some(m) => seq![("media"@, JsonValView::Raw(ser_object_spec(media_entries(m))))],
            None => Seq::<(Seq<char>, JsonValView)>::empty(),
        }));
    }
    let ghost e7 = obj_view(entries@);
    match &node.diagram {
        Some(dm) => {
            let rv = diagram_value(dm);
            entries.push((String::from_str("diagram"), rv));
        },
        None => {},
    }
    proof {
        assert(obj_view(entries@) =~= e7 + (match n.diagram {
            Some(dm) => seq![("diagram"@, JsonValView::Raw(ser_object_spec(diagram_entries(dm))))],
            None => Seq::<(Seq<char>, JsonValView)>::empty(),
        }));
    }
    push_opt_str_entry(&mut entries, "markdown", &node.markdown);
    let ghost e8 = obj_view(entries@);
    match &node.meta {
        Some(m) => {
            push_node_extras(&mut entries, m);
        },
        None => {},
    }
    proof {
        assert(obj_view(entries@) =~= e8 + (match n.meta {
            Some(m) => node_extra_entries(m, 0, Seq::empty()),
            None => Seq::<(Seq<char>, JsonValView)>::empty(),
        }));
        assert(obj_view(entries@) =~= node_body_entries(n));
    }
    let mut sv: Vec<char> = Vec::new();
    push_object(&mut sv, &entries);
    proof {
        assert(sv@ =~= node_body_spec(n));
    }
    string_from_chars(&sv)
}

/// The text id an endpoint is written under.
fn endpoint_name_of(store: &GraphStore, uid: &crate::types::UID) -> (r: String)
    ensures
        r@ == endpoint_name(nodes_view(store.nodes@), uid.0@),
{
    match store.node_pos(uid.0.as_str()) {
        Some(i) => {
            proof {
                assert(nodes_view(store.nodes@)[i as int].mermaid_id
                    == store.nodes@[i as int].mermaid_id@);
            }
            store.nodes[i].mermaid_id.clone()
        },
        None => uid.0.clone(),
    }
}

/// Serialize an edge directive body to canonical JSON with the fixed key
/// order. Endpoints are written under their nodes' text ids, so that the
/// assembler's (source, target) match finds this directive again when the
/// document is re-read.
pub fn canonical_edge_directive(store: &GraphStore, edge: &Edge) -> (r: String)
    ensures
        r@ == edge_body_spec(
            edge@,
            endpoint_name(nodes_view(store.nodes@), edge@.source),
            endpoint_name(nodes_view(store.nodes@), edge@.target),
        ),
{
    let ghost e = edge@;
    let ghost ns = nodes_view(store.nodes@);
    let sn = endpoint_name_of(store, &edge.source);
    let tn = endpoint_name_of(store, &edge.target);
    let mut entries: Vec<(String, JsonValue)> = Vec::new();
    entries.push((String::from_str("eid"), JsonValue::Str(edge.eid.0.clone())));
    entries.push((String::from_str("source"), JsonValue::Str(sn)));
    entries.push((String::from_str("target"), JsonValue::Str(tn)));
    proof {
        assert(obj_view(entries@) =~= seq![
            ("eid"@, JsonValView::Str(e.eid)),
            ("source"@, JsonValView::Str(endpoint_name(ns, e.source))),
            ("target"@, JsonValView::Str(endpoint_name(ns, e.target))),
        ]);
    }
    push_opt_str_entry(&mut entries, "label", &edge.label);
    let ghost e4 = obj_view(entries@);
    match &edge.style {
        Some(st) => {
            if st.stroke.is_some() || st.dashed.is_some() || st.arrow.is_some() {
                let mut sub: Vec<(String, JsonValue)> = Vec::new();
                proof {
                    assert(obj_view(sub@) =~= Seq::<(Seq<char>, JsonValView)>::empty());
                }
                push_opt_str_entry(&mut sub, "stroke", &st.stroke);
                let ghost s1 = obj_view(sub@);
                match st.dashed {
                    Some(b) => {
                        sub.push((String::from_str("dashed"), JsonValue::Bool(b)));
                    },
                    None => {},
                }
                proof {
                    assert(obj_view(sub@) =~= s1 + (match st@.dashed {
                        Some(b) => seq![("dashed"@, JsonValView::Bool(b))],
                        None => Seq::<(Seq<char>, JsonValView)>::empty(),
                    }));
                }
                let ghost s2 = obj_view(sub@);
                match st.arrow {
                    Some(a) => {
                        let name = match a {
                            crate::types::ArrowKind::Default => String::from_str("default"),
                            crate::types::ArrowKind::NoHead => String::from_str("none"),
                        };
                        sub.push((String::from_str("arrow"), JsonValue::Str(name)));
                    },
                    None => {},
                }
                proof {
                    assert(obj_view(sub@) =~= s2 + (match st@.arrow {
                        Some(a) => seq![("arrow"@, JsonValView::Str(arrow_name(a)))],
                        None => Seq::<(Seq<char>, JsonValView)>::empty(),
                    }));
                    assert(obj_view(sub@) =~= edge_style_entries(st@));
                }
                let rv = raw_of(&sub);
                entries.push((String::from_str("style"), rv));
            }
        },
        None => {},
    }
    proof {
        assert(obj_view(entries@) =~= e4 + (match e.style {
            Some(st) => if st.stroke is Some || st.dashed is Some || st.arrow is Some {
                seq![("style"@, JsonValView::Raw(ser_object_spec(edge_style_entries(st))))]
            } else {
                Seq::<(Seq<char>, JsonValView)>::empty()
            },
            None => Seq::<(Seq<char>, JsonValView)>::empty(),
        }));
    }
    let ghost e5 = obj_view(entries@);
    match &edge.meta {
        Some(m) => {
            push_edge_extras(&mut entries, m);
        },
        None => {},
    }
    proof {
        assert(obj_view(entries@) =~= e5 + (match e.meta {
            Some(m) => edge_extra_entries(m, 0, Seq::empty()),
            None => Seq::<(Seq<char>, JsonValView)>::empty(),
        }));
        assert(obj_view(entries@) =~= edge_body_entries(
            e,
            endpoint_name(ns, e.source),
            endpoint_name(ns, e.target),
        ));
    }
    let mut sv: Vec<char> = Vec::new();
    push_object(&mut sv, &entries);
    proof {
        assert(sv@ =~= edge_body_spec(e, endpoint_name(ns, e.source), endpoint_name(ns, e.target)));
    }
    string_from_chars(&sv)
}

/// Format a complete node directive line.
pub fn format_node_directive(node: &Node) -> (r: String)
    ensures
        r@ == node_directive_line(node@),
{
    let mut out: Vec<char> = Vec::new();
    push_lit(&mut out, "%% @node: ");
    let idv = chars_vec(node.mermaid_id.as_str());
    push_all(&mut out, &idv);
    push_lit(&mut out, " ");
    let body = canonical_node_directive(node);
    let bodyv = chars_vec(body.as_str());
    push_all(&mut out, &bodyv);
    proof {
        assert(out@ =~= node_directive_line(node@));
    }
    string_from_chars(&out)
}

/// Format a complete edge directive line under the given key.
pub fn format_edge_directive(store: &GraphStore, edge: &Edge, mermaid_id: &str) -> (r: String)
    ensures
        r@ == edge_directive_keyed(nodes_view(store.nodes@), edge@, mermaid_id@),
{
    let mut out: Vec<char> = Vec::new();
    push_lit(&mut out, "%% @edge: ");
    let kv = chars_vec(mermaid_id);
    push_all(&mut out, &kv);
    push_lit(&mut out, " ");
    let body = canonical_edge_directive(store, edge);
    let bodyv = chars_vec(body.as_str());
    push_all(&mut out, &bodyv);
    proof {
        assert(out@ =~= edge_directive_keyed(nodes_view(store.nodes@), edge@, mermaid_id@));
    }
    string_from_chars(&out)
}

/// Format a complete edge directive line under a positional key.
fn format_edge_directive_at(store: &GraphStore, edge: &Edge, num: u64) -> (r: String)
    ensures
        r@ == edge_directive_line(nodes_view(store.nodes@), edge@, num as int),
{
    let mut out: Vec<char> = Vec::new();
    push_lit(&mut out, "%% @edge: e");
    push_dec_u64(&mut out, num);
    push_lit(&mut out, " ");
    let body = canonical_edge_directive(store, edge);
    let bodyv = chars_vec(body.as_str());
    push_all(&mut out, &bodyv);
    proof {
        assert(out@ =~= edge_directive_line(nodes_view(store.nodes@), edge@, num as int));
    }
    string_from_chars(&out)
}

/// The declaration of a node in topology text.
fn format_node_decl(node: &Node) -> (r: Vec<char>)
    ensures
        r@ == decl_spec(node@),
{
    let mut out: Vec<char> = Vec::new();
    let idv = chars_vec(node.mermaid_id.as_str());
    match &node.label {
        Some(l) => {
            if !str_eq(l.as_str(), node.mermaid_id.as_str()) {
                push_all(&mut out, &idv);
                push_lit(&mut out, "[");
                let lv = chars_vec(l.as_str());
                push_all(&mut out, &lv);
                push_lit(&mut out, "]");
                proof {
                    assert(out@ =~= decl_spec(node@));
                }
                return out;
            }
            push_all(&mut out, &idv);
            proof {
                assert(out@ =~= decl_spec(node@));
            }
            out
        },
        None => {
            push_all(&mut out, &idv);
            proof {
                assert(out@ =~= decl_spec(node@));
            }
            out
        },
    }
}

/// Is this UID an endpoint of any of the given edges?
#[verifier::loop_isolation(false)]
fn is_connected(acte: &Vec<Edge>, uid: &str) -> (r: bool)
    ensures
        r == connected_spec(edges_view(acte@), uid@),
{
    let ghost es = edges_view(acte@);
    let mut j: usize = 0;
    while j < acte.len()
        invariant
            0 <= j <= acte@.len(),
            forall|k: int| 0 <= k < j ==> #[trigger] es[k].source != uid@ && es[k].target != uid@,
        decreases acte@.len() - j,
    {
        if str_eq(acte[j].source.0.as_str(), uid) || str_eq(acte[j].target.0.as_str(), uid) {
            proof {
                assert(edges_view(acte@)[j as int].source == acte@[j as int].source.0@);
                assert(edges_view(acte@)[j as int].target == acte@[j as int].target.0@);
                assert(edges_view(acte@)[j as int].source == uid@ || edges_view(
                    acte@,
                )[j as int].target == uid@);
                assert(connected_spec(edges_view(acte@), uid@));
            }
            return true;
        }
        proof {
            assert(es[j as int].source == acte@[j as int].source.0@);
            assert(es[j as int].target == acte@[j as int].target.0@);
        }
        j = j + 1;
    }
    proof {
        if connected_spec(edges_view(acte@), uid@) {
            let k = choose|k: int|
                0 <= k < edges_view(acte@).len() && (#[trigger] edges_view(acte@)[k].source
                    == uid@ || edges_view(acte@)[k].target == uid@);
            assert(es[k].source != uid@ && es[k].target != uid@);
            assert(false);
        }
    }
    false
}

/// Generate a complete document from a store: header, topology lines,
/// a separator, then one directive per active node and edge.
#[verifier::loop_isolation(false)]
pub fn generate_mermaidman(store: &GraphStore, direction: &str) -> (r: String)
    ensures
        r@ == generate_spec(nodes_view(store.nodes@), edges_view(store.edges@), direction@),
{
    let ghost ns = nodes_view(store.nodes@);
    let ghost es = edges_view(store.edges@);
    let actn = store.active_nodes();
    let acte = store.active_edges();
    let ghost anv = nodes_view(actn@);
    let ghost aev = edges_view(acte@);
    let mut lines: Vec<Vec<char>> = Vec::new();
    let mut head: Vec<char> = Vec::new();
    push_lit(&mut head, "graph ");
    let dv = chars_vec(direction);
    push_all(&mut head, &dv);
    lines.push(head);
    lines.push(Vec::new());
    proof {
        assert(crate::text::vecvec_view(lines@) =~= seq!["graph "@ + direction@, Seq::<
            char,
        >::empty()]);
    }
    // edge lines
    let mut j: usize = 0;
    while j < acte.len()
        invariant
            0 <= j <= acte@.len(),
            aev == edges_view(acte@),
            edge_lines(ns, aev, 0, seq!["graph "@ + direction@, Seq::<char>::empty()])
                == edge_lines(ns, aev, j as int, crate::text::vecvec_view(lines@)),
        decreases acte@.len() - j,
    {
        let ghost l0 = crate::text::vecvec_view(lines@);
        let sp = store.node_pos(acte[j].source.0.as_str());
        let tp = store.node_pos(acte[j].target.0.as_str());
        match (sp, tp) {
            (Some(si), Some(ti)) => {
                let mut line = format_node_decl(&store.nodes[si]);
                push_lit(&mut line, " ");
                match &acte[j].label {
                    Some(l) => {
                        push_lit(&mut line, "--|");
                        let lv = chars_vec(l.as_str());
                        push_all(&mut line, &lv);
                        push_lit(&mut line, "|-->");
                    },
                    None => {
                        push_lit(&mut line, "-->");
                    },
                }
                push_lit(&mut line, " ");
                let tdecl = format_node_decl(&store.nodes[ti]);
                push_all(&mut line, &tdecl);
                proof {
                    assert(line@ =~= decl_spec(ns[si as int]) + " "@ + arrow_spec(
                        aev[j as int],
                    ) + " "@ + decl_spec(ns[ti as int]));
                }
                lines.push(line);
                proof {
                    assert(crate::text::vecvec_view(lines@) =~= l0.push(
                        crate::text::vecvec_view(lines@).last(),
                    ));
                }
            },
            _ => {},
        }
        j = j + 1;
    }
    // orphan node declarations
    let mut i: usize = 0;
    while i < actn.len()
        invariant
            0 <= i <= actn@.len(),
            anv == nodes_view(actn@),
            aev == edges_view(acte@),
            orphan_lines(anv, aev, 0, edge_lines(ns, aev, 0, seq!["graph "@ + direction@, Seq::<
                char,
            >::empty()])) == orphan_lines(anv, aev, i as int, crate::text::vecvec_view(lines@)),
        decreases actn@.len() - i,
    {
        let ghost l0 = crate::text::vecvec_view(lines@);
        if !is_connected(&acte, actn[i].uid.0.as_str()) {
            let line = format_node_decl(&actn[i]);
            lines.push(line);
            proof {
                assert(crate::text::vecvec_view(lines@) =~= l0.push(
                    crate::text::vecvec_view(lines@).last(),
                ));
            }
        }
        i = i + 1;
    }
    lines.push(Vec::new());
    let ghost l3 = crate::text::vecvec_view(lines@);
    proof {
        assert(l3 =~= orphan_lines(anv, aev, 0, edge_lines(ns, aev, 0, seq!["graph "@
            + direction@, Seq::<char>::empty()])).push(Seq::<char>::empty()));
    }
    // node directives
    let mut i2: usize = 0;
    while i2 < actn.len()
        invariant
            0 <= i2 <= actn@.len(),
            anv == nodes_view(actn@),
            node_dir_lines(anv, 0, l3) == node_dir_lines(
                anv,
                i2 as int,
                crate::text::vecvec_view(lines@),
            ),
        decreases actn@.len() - i2,
    {
        let ghost l0 = crate::text::vecvec_view(lines@);
        let line = format_node_directive(&actn[i2]);
        let lv = chars_vec(line.as_str());
        lines.push(lv);
        proof {
            assert(crate::text::vecvec_view(lines@) =~= l0.push(node_directive_line(
                anv[i2 as int],
            )));
        }
        i2 = i2 + 1;
    }
    let ghost l4 = crate::text::vecvec_view(lines@);
    // edge directives with positional keys
    let mut j2: usize = 0;
    while j2 < acte.len()
        invariant
            0 <= j2 <= acte@.len(),
            aev == edges_view(acte@),
            acte@.len() <= 0xffff_ffff_ffff_ffff,
            edge_dir_lines(ns, aev, 0, l4) == edge_dir_lines(
                ns,
                aev,
                j2 as int,
                crate::text::vecvec_view(lines@),
            ),
        decreases acte@.len() - j2,
    {
        let ghost l0 = crate::text::vecvec_view(lines@);
        let line = format_edge_directive_at(store, &acte[j2], (j2 as u64) + 1);
        let lv = chars_vec(line.as_str());
        lines.push(lv);
        proof {
            assert(crate::text::vecvec_view(lines@) =~= l0.push(edge_directive_line(
                ns,
                aev[j2 as int],
                j2 as int + 1,
            )));
        }
        j2 = j2 + 1;
    }
    // join
    let ghost all = crate::text::vecvec_view(lines@);
    let mut joined: Vec<char> = Vec::new();
    let mut t: usize = 0;
    while t < lines.len()
        invariant
            0 <= t <= lines@.len(),
            all == crate::text::vecvec_view(lines@),
            crate::document::join_nl(all, 0, Seq::empty()) == crate::document::join_nl(
                all,
                t as int,
                joined@,
            ),
            t == 0 ==> joined@.len() == 0,
        decreases lines@.len() - t,
    {
        let ghost j0 = joined@;
        if t > 0 {
            joined.push('\n');
        }
        push_all(&mut joined, &lines[t]);
        proof {
            let sep: Seq<char> = if t > 0 {
                seq!['\n']
            } else {
                Seq::empty()
            };
            assert(joined@ =~= j0 + sep + all[t as int]);
        }
        t = t + 1;
    }
    string_from_chars(&joined)
}

/// Generate just the topology portion, without directives.
#[verifier::loop_isolation(false)]
pub fn generate_topology(store: &GraphStore, direction: &str) -> (r: String)
    ensures
        r@ == generate_topology_spec(nodes_view(store.nodes@), edges_view(store.edges@), direction@),
{
    let ghost ns = nodes_view(store.nodes@);
    let actn = store.active_nodes();
    let acte = store.active_edges();
    let ghost anv = nodes_view(actn@);
    let ghost aev = edges_view(acte@);
    let mut lines: Vec<Vec<char>> = Vec::new();
    let mut head: Vec<char> = Vec::new();
    push_lit(&mut head, "graph ");
    let dv = chars_vec(direction);
    push_all(&mut head, &dv);
    lines.push(head);
    proof {
        assert(crate::text::vecvec_view(lines@) =~= seq!["graph "@ + direction@]);
    }
    let mut j: usize = 0;
    while j < acte.len()
        invariant
            0 <= j <= acte@.len(),
            aev == edges_view(acte@),
            edge_lines(ns, aev, 0, seq!["graph "@ + direction@]) == edge_lines(
                ns,
                aev,
                j as int,
                crate::text::vecvec_view(lines@),
            ),
        decreases acte@.len() - j,
    {
        let ghost l0 = crate::text::vecvec_view(lines@);
        let sp = store.node_pos(acte[j].source.0.as_str());
        let tp = store.node_pos(acte[j].target.0.as_str());
        match (sp, tp) {
            (Some(si), Some(ti)) => {
                let mut line = format_node_decl(&store.nodes[si]);
                push_lit(&mut line, " ");
                match &acte[j].label {
                    Some(l) => {
                        push_lit(&mut line, "--|");
                        let lv = chars_vec(l.as_str());
                        push_all(&mut line, &lv);
                        push_lit(&mut line, "|-->");
                    },
                    None => {
                        push_lit(&mut line, "-->");
                    },
                }
                push_lit(&mut line, " ");
                let tdecl = format_node_decl(&store.nodes[ti]);
                push_all(&mut line, &tdecl);
                proof {
                    assert(line@ =~= decl_spec(ns[si as int]) + " "@ + arrow_spec(
                        aev[j as int],
                    ) + " "@ + decl_spec(ns[ti as int]));
                }
                lines.push(line);
                proof {
                    assert(crate::text::vecvec_view(lines@) =~= l0.push(
                        crate::text::vecvec_view(lines@).last(),
                    ));
                }
            },
            _ => {},
        }
        j = j + 1;
    }
    let mut i: usize = 0;
    while i < actn.len()
        invariant
            0 <= i <= actn@.len(),
            anv == nodes_view(actn@),
            aev == edges_view(acte@),
            orphan_lines(anv, aev, 0, edge_lines(ns, aev, 0, seq!["graph "@ + direction@]))
                == orphan_lines(anv, aev, i as int, crate::text::vecvec_view(lines@)),
        decreases actn@.len() - i,
    {
        let ghost l0 = crate::text::vecvec_view(lines@);
        if !is_connected(&acte, actn[i].uid.0.as_str()) {
            let line = format_node_decl(&actn[i]);
            lines.push(line);
            proof {
                assert(crate::text::vecvec_view(lines@) =~= l0.push(
                    crate::text::vecvec_view(lines@).last(),
                ));
            }
        }
        i = i + 1;
    }
    let ghost all = crate::text::vecvec_view(lines@);
    let mut joined: Vec<char> = Vec::new();
    let mut t: usize = 0;
    while t < lines.len()
        invariant
            0 <= t <= lines@.len(),
            all == crate::text::vecvec_view(lines@),
            crate::document::join_nl(all, 0, Seq::empty()) == crate::document::join_nl(
                all,
                t as int,
                joined@,
            ),
            t == 0 ==> joined@.len() == 0,
        decreases lines@.len() - t,
    {
        let ghost j0 = joined@;
        if t > 0 {
            joined.push('\n');
        }
        push_all(&mut joined, &lines[t]);
        proof {
            let sep: Seq<char> = if t > 0 {
                seq!['\n']
            } else {
                Seq::empty()
            };
            assert(joined@ =~= j0 + sep + all[t as int]);
        }
        t = t + 1;
    }
    string_from_chars(&joined)
}

} // verus!
