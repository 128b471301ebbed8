//! The document assembler: one pass over the input lines separates
//! directive comments from topology text, then merges the two parses into
//! nodes and edges, collecting warnings for unresolved edge endpoints.

use vstd::prelude::*;
use vstd::string::StringExecFns;

use crate::directives::{
    edge_directive_spec, node_directive_spec, parse_edge_directive, parse_node_directive,
    EdgeDirView, EdgeDirective, NodeDirView, NodeDirective,
};
use crate::seqs::{idx_of, lemma_idx_of, lemma_idx_of_is};
use crate::store::{edges_view, nodes_view};
use crate::text::{
    chars_vec, lines_spec, lit_at, lit_at_spec, push_all, split_lines, str_eq, string_from_chars,
    subvec, trim, trim_spec, vecvec_view,
};
use crate::topology::{node_pairs_view, edge_triples_view, parse_mermaid_topology, topo_spec};
use crate::types::{
    fresh_eid_shape, fresh_uid_shape, opt_str_view, Edge, EdgeView, Node, NodeKind, NodeView, UID,
    EID,
};
use crate::Error;

verus! {

/// Parsed document result: the topology text with directive lines
/// stripped, the merged nodes and edges, and any warnings.
#[derive(Debug)]
pub struct ParseResult {
    pub topology: String,
    pub nodes: Vec<Node>,
    pub edges: Vec<Edge>,
    pub warnings: Vec<String>,
}

pub open spec fn strs_view(s: Seq<String>) -> Seq<Seq<char>> {
    s.map(|i: int, e: String| e@)
}

pub open spec fn node_dirs_view(s: Seq<NodeDirective>) -> Seq<NodeDirView> {
    s.map(|i: int, d: NodeDirective| d@)
}

pub open spec fn edge_dirs_view(s: Seq<EdgeDirective>) -> Seq<EdgeDirView> {
    s.map(|i: int, d: EdgeDirective| d@)
}

/// One line of the splitting pass: a directive line is diverted to its
/// list; every other line joins the topology text.
pub open spec fn doc_split_step(
    acc: (Seq<Seq<char>>, Seq<NodeDirView>, Seq<EdgeDirView>),
    line: Seq<char>,
) -> (Seq<Seq<char>>, Seq<NodeDirView>, Seq<EdgeDirView>) {
    let t = trim_spec(line);
    if lit_at_spec(t, "%%"@, 0) {
        match node_directive_spec(t) {
            Some(d) => (acc.0, acc.1.push(d), acc.2),
            None => match edge_directive_spec(t) {
                Some(d) => (acc.0, acc.1, acc.2.push(d)),
                None => acc,
            },
        }
    } else {
        (acc.0.push(line), acc.1, acc.2)
    }
}

pub open spec fn doc_split(
    lines: Seq<Seq<char>>,
    i: int,
    acc: (Seq<Seq<char>>, Seq<NodeDirView>, Seq<EdgeDirView>),
) -> (Seq<Seq<char>>, Seq<NodeDirView>, Seq<EdgeDirView>)
    decreases lines.len() - i,
{
    if !(0 <= i < lines.len()) {
        acc
    } else {
        doc_split(lines, i + 1, doc_split_step(acc, lines[i]))
    }
}

/// The lines joined with newlines.
pub open spec fn join_nl(lines: Seq<Seq<char>>, i: int, acc: Seq<char>) -> Seq<char>
    decreases lines.len() - i,
{
    if !(0 <= i < lines.len()) {
        acc
    } else {
        let sep: Seq<char> = if i > 0 {
            seq!['\n']
        } else {
            Seq::empty()
        };
        join_nl(lines, i + 1, acc + sep + lines[i])
    }
}

/// The deterministic reading of a whole document: its topology text, its
/// directives, and the topology parse of that text.
pub struct DocView {
    pub topology: Seq<char>,
    pub node_dirs: Seq<NodeDirView>,
    pub edge_dirs: Seq<EdgeDirView>,
    pub topo_nodes: Seq<(Seq<char>, Option<Seq<char>>)>,
    pub topo_edges: Seq<(Seq<char>, Seq<char>, Option<Seq<char>>)>,
}

pub open spec fn doc_of(text: Seq<char>) -> DocView {
    let parts = doc_split(lines_spec(text), 0, (Seq::empty(), Seq::empty(), Seq::empty()));
    let topology = join_nl(parts.0, 0, Seq::empty());
    let topo = topo_spec(topology);
    DocView {
        topology: topology,
        node_dirs: parts.1,
        edge_dirs: parts.2,
        topo_nodes: topo.0,
        topo_edges: topo.1,
    }
}

/// The last node directive for a mermaid id wins.
pub open spec fn node_dir_for(dirs: Seq<NodeDirView>, id: Seq<char>) -> Option<NodeDirView>
    decreases dirs.len(),
{
    if dirs.len() == 0 {
        None
    } else if dirs.last().id == id {
        Some(dirs.last())
    } else {
        node_dir_for(dirs.drop_last(), id)
    }
}

/// The last edge directive for a (source, target) pair wins; a directive
/// missing either endpoint matches nothing.
pub open spec fn edge_dir_for(
    dirs: Seq<EdgeDirView>,
    src: Seq<char>,
    tgt: Seq<char>,
) -> Option<EdgeDirView>
    decreases dirs.len(),
{
    if dirs.len() == 0 {
        None
    } else if dirs.last().source == Some(src) && dirs.last().target == Some(tgt) {
        Some(dirs.last())
    } else {
        edge_dir_for(dirs.drop_last(), src, tgt)
    }
}

/// The topology-node predicate on a mermaid id.
pub open spec fn topo_id_pred(id: Seq<char>) -> spec_fn((Seq<char>, Option<Seq<char>>)) -> bool {
    |e: (Seq<char>, Option<Seq<char>>)| e.0 == id
}

/// A lowered ASCII character.
pub open spec fn lower_char(c: char) -> char {
    if 'A' <= c && c <= 'Z' {
        ((((c as u32) + 32) as u8) as char)
    } else {
        c
    }
}

pub open spec fn ascii_lower(s: Seq<char>) -> Seq<char> {
    s.map(|i: int, c: char| lower_char(c))
}

/// The node kind named by a directive string, lowered; anything unknown
/// is a card.
pub open spec fn kind_of_str(s: Seq<char>) -> NodeKind {
    let low = ascii_lower(s);
    if low == "card"@ {
        NodeKind::Card
    } else if low == "note"@ {
        NodeKind::Note
    } else if low == "code"@ {
        NodeKind::Code
    } else if low == "media"@ {
        NodeKind::Media
    } else if low == "markdown"@ {
        NodeKind::Markdown
    } else if low == "diagram"@ {
        NodeKind::Diagram
    } else if low == "oembed"@ {
        NodeKind::Oembed
    } else {
        NodeKind::Card
    }
}

/// How one parsed node must look: identity from its directive if present
/// (else fresh), position and kind only when the directive supplies them,
/// the whole directive body as meta.
pub open spec fn resolved_parsed_node(d: DocView, i: int, n: NodeView) -> bool {
    let id = d.topo_nodes[i].0;
    let lab = d.topo_nodes[i].1;
    let dir = node_dir_for(d.node_dirs, id);
    &&& n.mermaid_id == id
    &&& n.label == lab
    &&& (match dir {
        Some(nd) => {
            &&& (match nd.uid {
                Some(u) => n.uid == u,
                None => fresh_uid_shape(n.uid),
            })
            &&& n.x == (match nd.x {
                Some(x) => Some(x as i64),
                None => None::<i64>,
            })
            &&& n.y == (match nd.y {
                Some(y) => Some(y as i64),
                None => None::<i64>,
            })
            &&& n.kind == (match nd.kind {
                Some(k) => kind_of_str(k),
                None => NodeKind::Card,
            })
            &&& n.meta == nd.meta
        },
        None => fresh_uid_shape(n.uid) && n.x is None && n.y is None && n.kind == NodeKind::Card
            && n.meta is None,
    })
    &&& n.style is None
    &&& n.code is None
    &&& n.media is None
    &&& n.diagram is None
    &&& n.markdown is None
    &&& !n.deleted
    &&& n.updated_at is Some
}

/// The UID an edge endpoint resolves to: the matching node's UID, or the
/// raw text id when no such node was parsed.
pub open spec fn endpoint_uid(d: DocView, ns: Seq<NodeView>, id: Seq<char>) -> Seq<char> {
    match idx_of(d.topo_nodes, topo_id_pred(id)) {
        Some(k) => ns[k].uid,
        None => id,
    }
}

/// How one parsed edge must look.
pub open spec fn resolved_parsed_edge(d: DocView, ns: Seq<NodeView>, j: int, e: EdgeView) -> bool {
    let src = d.topo_edges[j].0;
    let tgt = d.topo_edges[j].1;
    let lab = d.topo_edges[j].2;
    let dir = edge_dir_for(d.edge_dirs, src, tgt);
    &&& e.source == endpoint_uid(d, ns, src)
    &&& e.target == endpoint_uid(d, ns, tgt)
    &&& (match dir {
        Some(ed) => (match ed.eid {
            Some(x) => e.eid == x,
            None => fresh_eid_shape(e.eid),
        }),
        None => fresh_eid_shape(e.eid),
    })
    &&& e.label == (match lab {
        Some(l) => Some(l),
        None => (match dir {
            Some(ed) => ed.label,
            None => None::<Seq<char>>,
        }),
    })
    &&& e.meta == (match dir {
        Some(ed) => ed.meta,
        None => None,
    })
    &&& e.style is None
    &&& !e.deleted
    &&& e.updated_at is Some
}

pub open spec fn warn_src(id: Seq<char>) -> Seq<char> {
    "Unknown source node: "@ + id
}

pub open spec fn warn_tgt(id: Seq<char>) -> Seq<char> {
    "Unknown target node: "@ + id
}

/// The warnings of the edge pass, in order: one per unresolved endpoint.
pub open spec fn doc_warnings(d: DocView, j: int, acc: Seq<Seq<char>>) -> Seq<Seq<char>>
    decreases d.topo_edges.len() - j,
{
    if !(0 <= j < d.topo_edges.len()) {
        acc
    } else {
        let src = d.topo_edges[j].0;
        let tgt = d.topo_edges[j].1;
        let acc1 = if idx_of(d.topo_nodes, topo_id_pred(src)) is Some {
            acc
        } else {
            acc.push(warn_src(src))
        };
        let acc2 = if idx_of(d.topo_nodes, topo_id_pred(tgt)) is Some {
            acc1
        } else {
            acc1.push(warn_tgt(tgt))
        };
        doc_warnings(d, j + 1, acc2)
    }
}

// ---------------------------------------------------------------------------
// Executable assembler
// ---------------------------------------------------------------------------

/// The node kind named by a directive string.
pub fn parse_node_kind(s: &str) -> (r: NodeKind)
    ensures
        r == kind_of_str(s@),
{
    let v = chars_vec(s);
    let mut low: Vec<char> = Vec::new();
    let mut k: usize = 0;
    while k < v.len()
        invariant
            0 <= k <= v@.len(),
            low@.len() == k,
            forall|j: int| 0 <= j < k ==> low@[j] == lower_char(v@[j]),
        decreases v@.len() - k,
    {
        let c = v[k];
        if 'A' <= c && c <= 'Z' {
            low.push((((c as u32) + 32) as u8) as char);
        } else {
            low.push(c);
        }
        k = k + 1;
    }
    proof {
        assert(low@ =~= ascii_lower(s@));
        reveal_strlit("card");
        reveal_strlit("note");
        reveal_strlit("code");
        reveal_strlit("media");
        reveal_strlit("markdown");
        reveal_strlit("diagram");
        reveal_strlit("oembed");
    }
    if low.len() == 4 && lit_at(&low, 0, "card") {
        proof {
            assert(low@ =~= "card"@);
        }
        NodeKind::Card
    } else if low.len() == 4 && lit_at(&low, 0, "note") {
        proof {
            assert(low@ =~= "note"@);
        }
        NodeKind::Note
    } else if low.len() == 4 && lit_at(&low, 0, "code") {
        proof {
            assert(low@ =~= "code"@);
        }
        NodeKind::Code
    } else if low.len() == 5 && lit_at(&low, 0, "media") {
        proof {
            assert(low@ =~= "media"@);
        }
        NodeKind::Media
    } else if low.len() == 8 && lit_at(&low, 0, "markdown") {
        proof {
            assert(low@ =~= "markdown"@);
        }
        NodeKind::Markdown
    } else if low.len() == 7 && lit_at(&low, 0, "diagram") {
        proof {
            assert(low@ =~= "diagram"@);
        }
        NodeKind::Diagram
    } else if low.len() == 6 && lit_at(&low, 0, "oembed") {
        proof {
            assert(low@ =~= "oembed"@);
        }
        NodeKind::Oembed
    } else {
        proof {
            if ascii_lower(s@) == "card"@ {
                assert(lit_at_spec(low@, "card"@, 0)) by {
                    assert(low@.subrange(0, 4) =~= low@);
                }
            }
            if ascii_lower(s@) == "note"@ {
                assert(lit_at_spec(low@, "note"@, 0)) by {
                    assert(low@.subrange(0, 4) =~= low@);
                }
            }
            if ascii_lower(s@) == "code"@ {
                assert(lit_at_spec(low@, "code"@, 0)) by {
                    assert(low@.subrange(0, 4) =~= low@);
                }
            }
            if ascii_lower(s@) == "media"@ {
                assert(lit_at_spec(low@, "media"@, 0)) by {
                    assert(low@.subrange(0, 5) =~= low@);
                }
            }
            if ascii_lower(s@) == "markdown"@ {
                assert(lit_at_spec(low@, "markdown"@, 0)) by {
                    assert(low@.subrange(0, 8) =~= low@);
                }
            }
            if ascii_lower(s@) == "diagram"@ {
                assert(lit_at_spec(low@, "diagram"@, 0)) by {
                    assert(low@.subrange(0, 7) =~= low@);
                }
            }
            if ascii_lower(s@) == "oembed"@ {
                assert(lit_at_spec(low@, "oembed"@, 0)) by {
                    assert(low@.subrange(0, 6) =~= low@);
                }
            }
        }
        NodeKind::Card
    }
}

/// Find the winning (last) node directive for an id.
#[verifier::loop_isolation(false)]
fn find_node_dir(dirs: &Vec<NodeDirective>, id: &str) -> (r: Option<usize>)
    ensures
        match r {
            Some(k) => k < dirs@.len() && node_dir_for(node_dirs_view(dirs@), id@) == Some(
                node_dirs_view(dirs@)[k as int],
            ),
            None => node_dir_for(node_dirs_view(dirs@), id@) is None,
        },
{
    let ghost dv = node_dirs_view(dirs@);
    proof {
        assert(dv.subrange(0, dirs@.len() as int) =~= dv);
    }
    let mut k = dirs.len();
    while k > 0
        invariant
            0 <= k <= dirs@.len(),
            node_dir_for(dv, id@) == node_dir_for(dv.subrange(0, k as int), id@),
        decreases k,
    {
        proof {
            assert(dv.subrange(0, k as int).last() == dv[k - 1]);
            assert(dv.subrange(0, k as int).drop_last() =~= dv.subrange(0, k - 1));
        }
        if str_eq(dirs[k - 1].id.as_str(), id) {
            proof {
                assert(dv[k - 1].id == id@);
            }
            return Some(k - 1);
        }
        proof {
            assert(dv[k - 1].id == dirs@[k - 1].id@);
        }
        k = k - 1;
    }
    proof {
        assert(dv.subrange(0, 0) =~= Seq::<NodeDirView>::empty());
    }
    None
}

/// Find the winning (last) edge directive for a (source, target) pair.
#[verifier::loop_isolation(false)]
fn find_edge_dir(dirs: &Vec<EdgeDirective>, src: &str, tgt: &str) -> (r: Option<usize>)
    ensures
        match r {
            Some(k) => k < dirs@.len() && edge_dir_for(edge_dirs_view(dirs@), src@, tgt@) == Some(
                edge_dirs_view(dirs@)[k as int],
            ),
            None => edge_dir_for(edge_dirs_view(dirs@), src@, tgt@) is None,
        },
{
    let ghost dv = edge_dirs_view(dirs@);
    proof {
        assert(dv.subrange(0, dirs@.len() as int) =~= dv);
    }
    let mut k = dirs.len();
    while k > 0
        invariant
            0 <= k <= dirs@.len(),
            edge_dir_for(dv, src@, tgt@) == edge_dir_for(dv.subrange(0, k as int), src@, tgt@),
        decreases k,
    {
        proof {
            assert(dv.subrange(0, k as int).last() == dv[k - 1]);
            assert(dv.subrange(0, k as int).drop_last() =~= dv.subrange(0, k - 1));
        }
        let hit = (match &dirs[k - 1].source {
            Some(s) => str_eq(s.as_str(), src),
            None => false,
        }) && (match &dirs[k - 1].target {
            Some(t) => str_eq(t.as_str(), tgt),
            None => false,
        });
        proof {
            assert(dv[k - 1].source == opt_str_view(dirs@[k - 1].source));
            assert(dv[k - 1].target == opt_str_view(dirs@[k - 1].target));
        }
        if hit {
            return Some(k - 1);
        }
        k = k - 1;
    }
    proof {
        assert(dv.subrange(0, 0) =~= Seq::<EdgeDirView>::empty());
    }
    None
}

/// Find the topology node carrying a mermaid id.
#[verifier::loop_isolation(false)]
fn find_topo_idx(tn: &Vec<(String, Option<String>)>, id: &str) -> (r: Option<usize>)
    ensures
        match r {
            Some(k) => idx_of(node_pairs_view(tn@), topo_id_pred(id@)) == Some(k as int) && k
                < tn@.len(),
            None => idx_of(node_pairs_view(tn@), topo_id_pred(id@)) is None,
        },
{
    let ghost nv = node_pairs_view(tn@);
    let ghost p = topo_id_pred(id@);
    let mut k: usize = 0;
    loop
        invariant
            0 <= k <= tn@.len(),
            forall|j: int| 0 <= j < k ==> !p(nv[j]),
        decreases tn@.len() - k,
    {
        if k >= tn.len() {
            proof {
                lemma_idx_of(nv, p);
                if idx_of(nv, p) is Some {
                    assert(p(nv[idx_of(nv, p)->0]));
                    assert(false);
                }
            }
            return None;
        }
        if str_eq(tn[k].0.as_str(), id) {
            proof {
                assert(p(nv[k as int]));
                lemma_idx_of_is(nv, p, k as int);
            }
            return Some(k);
        }
        proof {
            assert(nv[k as int].0 == tn@[k as int].0@);
        }
        k = k + 1;
    }
}

/// Parse a complete document: split off the directive lines, parse the
/// remaining topology, and merge the two.
#[verifier::loop_isolation(false)]
pub fn parse_document(input: &str) -> (r: Result<ParseResult, Error>)
    ensures
        r is Ok,
        ({
            let d = doc_of(input@);
            let p = r->Ok_0;
            &&& p.topology@ == d.topology
            &&& nodes_view(p.nodes@).len() == d.topo_nodes.len()
            &&& (forall|i: int|
                0 <= i < d.topo_nodes.len() ==> resolved_parsed_node(
                    d,
                    i,
                    #[trigger] nodes_view(p.nodes@)[i],
                ))
            &&& edges_view(p.edges@).len() == d.topo_edges.len()
            &&& (forall|j: int|
                0 <= j < d.topo_edges.len() ==> resolved_parsed_edge(
                    d,
                    nodes_view(p.nodes@),
                    j,
                    #[trigger] edges_view(p.edges@)[j],
                ))
            &&& strs_view(p.warnings@) == doc_warnings(d, 0, Seq::empty())
        }),
{
    let chars = chars_vec(input);
    let lines = split_lines(&chars);
    let ghost lview = vecvec_view(lines@);
    let mut topo_lines: Vec<Vec<char>> = Vec::new();
    let mut node_dirs: Vec<NodeDirective> = Vec::new();
    let mut edge_dirs: Vec<EdgeDirective> = Vec::new();
    let mut li: usize = 0;
    proof {
        assert(vecvec_view(topo_lines@) =~= Seq::<Seq<char>>::empty());
        assert(node_dirs_view(node_dirs@) =~= Seq::<NodeDirView>::empty());
        assert(edge_dirs_view(edge_dirs@) =~= Seq::<EdgeDirView>::empty());
    }
    while li < lines.len()
        invariant
            0 <= li <= lines@.len(),
            doc_split(lview, 0, (Seq::empty(), Seq::empty(), Seq::empty())) == doc_split(
                lview,
                li as int,
                (vecvec_view(topo_lines@), node_dirs_view(node_dirs@), edge_dirs_view(edge_dirs@)),
            ),
        decreases lines@.len() - li,
    {
        let ghost t0 = vecvec_view(topo_lines@);
        let ghost n0 = node_dirs_view(node_dirs@);
        let ghost e0 = edge_dirs_view(edge_dirs@);
        let t = trim(&lines[li]);
        if lit_at(&t, 0, "%%") {
            let tline = string_from_chars(&t);
            match parse_node_directive(tline.as_str()) {
                Some(d) => {
                    node_dirs.push(d);
                    proof {
                        assert(node_dirs_view(node_dirs@) =~= n0.push(
                            node_dirs_view(node_dirs@).last(),
                        ));
                    }
                },
                None => {
                    match parse_edge_directive(tline.as_str()) {
                        Some(d) => {
                            edge_dirs.push(d);
                            proof {
                                assert(edge_dirs_view(edge_dirs@) =~= e0.push(
                                    edge_dirs_view(edge_dirs@).last(),
                                ));
                            }
                        },
                        None => {},
                    }
                },
            }
        } else {
            let raw = subvec(&lines[li], 0, lines[li].len());
            proof {
                assert(raw@ =~= lview[li as int]);
            }
            topo_lines.push(raw);
            proof {
                assert(vecvec_view(topo_lines@) =~= t0.push(lview[li as int]));
            }
        }
        li = li + 1;
    }
    // join the topology lines
    let mut joined: Vec<char> = Vec::new();
    let ghost tl = vecvec_view(topo_lines@);
    let mut ti: usize = 0;
    while ti < topo_lines.len()
        invariant
            0 <= ti <= topo_lines@.len(),
            join_nl(tl, 0, Seq::empty()) == join_nl(tl, ti as int, joined@),
            ti == 0 ==> joined@.len() == 0,
        decreases topo_lines@.len() - ti,
    {
        let ghost j0 = joined@;
        if ti > 0 {
            joined.push('\n');
        }
        push_all(&mut joined, &topo_lines[ti]);
        proof {
            let sep: Seq<char> = if ti > 0 {
                seq!['\n']
            } else {
                Seq::empty()
            };
            assert(joined@ =~= j0 + sep + tl[ti as int]);
        }
        ti = ti + 1;
    }
    let topology = string_from_chars(&joined);
    let ghost d = doc_of(input@);
    proof {
        assert(d.topology == topology@);
        assert(d.node_dirs == node_dirs_view(node_dirs@));
        assert(d.edge_dirs == edge_dirs_view(edge_dirs@));
    }
    let topo = match parse_mermaid_topology(topology.as_str()) {
        Ok(t) => t,
        Err(e) => {
            return Err(e);
        },
    };
    let tn = topo.0;
    let te = topo.1;
    proof {
        assert(d.topo_nodes == node_pairs_view(tn@));
        assert(d.topo_edges == edge_triples_view(te@));
    }
    // merge nodes
    let mut nodes: Vec<Node> = Vec::new();
    let mut ni: usize = 0;
    while ni < tn.len()
        invariant
            0 <= ni <= tn@.len(),
            d.topo_nodes == node_pairs_view(tn@),
            d.node_dirs == node_dirs_view(node_dirs@),
            nodes@.len() == ni,
            forall|i: int|
                0 <= i < ni ==> resolved_parsed_node(d, i, #[trigger] nodes_view(nodes@)[i]),
        decreases tn@.len() - ni,
    {
        let ghost prev = nodes_view(nodes@);
        let id = tn[ni].0.clone();
        let dir = find_node_dir(&node_dirs, id.as_str());
        let uid = match dir {
            Some(k) => match &node_dirs[k].uid {
                Some(u) => UID::from_str(u.as_str()),
                None => UID::new(),
            },
            None => UID::new(),
        };
        let mut node = Node::with_uid(uid, id.as_str());
        node.label = crate::types::clone_opt_string(&tn[ni].1);
        match dir {
            Some(k) => {
                match node_dirs[k].x {
                    Some(xv) => {
                        node.x = Some(xv as i64);
                    },
                    None => {},
                }
                match node_dirs[k].y {
                    Some(yv) => {
                        node.y = Some(yv as i64);
                    },
                    None => {},
                }
                match &node_dirs[k].kind {
                    Some(ks) => {
                        node.kind = parse_node_kind(ks.as_str());
                    },
                    None => {},
                }
                node.meta = match &node_dirs[k].meta {
                    Some(m) => Some(m.clone()),
                    None => None,
                };
            },
            None => {},
        }
        proof {
            assert(resolved_parsed_node(d, ni as int, node@));
        }
        nodes.push(node);
        proof {
            assert(nodes_view(nodes@) =~= prev.push(nodes_view(nodes@).last()));
            assert(forall|i: int|
                0 <= i < ni ==> nodes_view(nodes@)[i] == prev[i]);
        }
        ni = ni + 1;
    }
    // merge edges
    let mut edges: Vec<Edge> = Vec::new();
    let mut warnings: Vec<String> = Vec::new();
    let mut ei: usize = 0;
    proof {
        assert(strs_view(warnings@) =~= Seq::<Seq<char>>::empty());
    }
    while ei < te.len()
        invariant
            0 <= ei <= te@.len(),
            d.topo_nodes == node_pairs_view(tn@),
            d.topo_edges == edge_triples_view(te@),
            d.edge_dirs == edge_dirs_view(edge_dirs@),
            nodes@.len() == d.topo_nodes.len(),
            forall|i: int|
                0 <= i < d.topo_nodes.len() ==> resolved_parsed_node(
                    d,
                    i,
                    #[trigger] nodes_view(nodes@)[i],
                ),
            edges@.len() == ei,
            forall|j: int|
                0 <= j < ei ==> resolved_parsed_edge(
                    d,
                    nodes_view(nodes@),
                    j,
                    #[trigger] edges_view(edges@)[j],
                ),
            doc_warnings(d, 0, Seq::empty()) == doc_warnings(d, ei as int, strs_view(warnings@)),
        decreases te@.len() - ei,
    {
        let ghost eprev = edges_view(edges@);
        let ghost wprev = strs_view(warnings@);
        let src = te[ei].0.clone();
        let tgt = te[ei].1.clone();
        let source = match find_topo_idx(&tn, src.as_str()) {
            Some(k) => nodes[k].uid.clone(),
            None => {
                let w = String::from_str("Unknown source node: ").concat(src.as_str());
                warnings.push(w);
                proof {
                    assert(strs_view(warnings@) =~= wprev.push(warn_src(src@)));
                }
                UID::from_str(src.as_str())
            },
        };
        let ghost wmid = strs_view(warnings@);
        let target = match find_topo_idx(&tn, tgt.as_str()) {
            Some(k) => nodes[k].uid.clone(),
            None => {
                let w = String::from_str("Unknown target node: ").concat(tgt.as_str());
                warnings.push(w);
                proof {
                    assert(strs_view(warnings@) =~= wmid.push(warn_tgt(tgt@)));
                }
                UID::from_str(tgt.as_str())
            },
        };
        let dir = find_edge_dir(&edge_dirs, src.as_str(), tgt.as_str());
        let eid = match dir {
            Some(k) => match &edge_dirs[k].eid {
                Some(x) => EID::from_str(x.as_str()),
                None => EID::new(),
            },
            None => EID::new(),
        };
        let mut edge = Edge::with_eid(eid, source, target);
        edge.label = match &te[ei].2 {
            Some(l) => Some(l.clone()),
            None => match dir {
                Some(k) => crate::types::clone_opt_string(&edge_dirs[k].label),
                None => None,
            },
        };
        match dir {
            Some(k) => {
                edge.meta = match &edge_dirs[k].meta {
                    Some(m) => Some(m.clone()),
                    None => None,
                };
            },
            None => {},
        }
        proof {
            assert(resolved_parsed_edge(d, nodes_view(nodes@), ei as int, edge@));
        }
        edges.push(edge);
        proof {
            assert(edges_view(edges@) =~= eprev.push(edges_view(edges@).last()));
            assert(forall|j: int| 0 <= j < ei ==> edges_view(edges@)[j] == eprev[j]);
        }
        ei = ei + 1;
    }
    Ok(ParseResult { topology, nodes, edges, warnings })
}

} // verus!
