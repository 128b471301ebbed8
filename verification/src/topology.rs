//! Topology parsing: nodes and edges from the flowchart grammar.
//!
//! A line is either skipped (blank, comment, structural keyword), an edge
//! line `<node-decl> <arrow> <node-decl>`, or a bare node declaration. The
//! first occurrence of an id fixes its place in the node list; anything
//! unparseable is silently skipped.

use vstd::prelude::*;

use crate::text::{
    chars_vec, find_lit_from, id_end, lines_spec, lit_at, lit_at_spec, skip_id, skip_space,
    space_end, split_lines, str_eq, string_from_chars, subvec, trim, trim_spec,
};
use crate::Error;

verus! {

/// A bracketed label after a node id: the opener, the text up to the first
/// occurrence of the closer, and the closer.
pub open spec fn delim_spec(s: Seq<char>, i: int, open: Seq<char>, close: Seq<char>) -> Option<
    (Seq<char>, int),
> {
    if lit_at_spec(s, open, i) {
        match find_lit_from(s, close, i + open.len()) {
            Some(j) => Some((s.subrange(i + open.len(), j), j + close.len())),
            None => None,
        }
    } else {
        None
    }
}

/// The label forms, tried in order; the first that matches wins.
pub open spec fn p_label(s: Seq<char>, i: int) -> Option<(Seq<char>, int)> {
    if delim_spec(s, i, "["@, "]"@) is Some {
        delim_spec(s, i, "["@, "]"@)
    } else if delim_spec(s, i, "(("@, "))"@) is Some {
        delim_spec(s, i, "(("@, "))"@)
    } else if delim_spec(s, i, "(["@, "])"@) is Some {
        delim_spec(s, i, "(["@, "])"@)
    } else if delim_spec(s, i, "("@, ")"@) is Some {
        delim_spec(s, i, "("@, ")"@)
    } else if delim_spec(s, i, "{"@, "}"@) is Some {
        delim_spec(s, i, "{"@, "}"@)
    } else if delim_spec(s, i, "{{"@, "}}"@) is Some {
        delim_spec(s, i, "{{"@, "}}"@)
    } else if delim_spec(s, i, ">"@, "]"@) is Some {
        delim_spec(s, i, ">"@, "]"@)
    } else if delim_spec(s, i, "[/"@, "/]"@) is Some {
        delim_spec(s, i, "[/"@, "/]"@)
    } else if delim_spec(s, i, "[\\"@, "\\]"@) is Some {
        delim_spec(s, i, "[\\"@, "\\]"@)
    } else {
        None
    }
}

/// A node declaration at `i`: an id, optionally followed by a label form.
pub open spec fn p_node_decl(s: Seq<char>, i: int) -> Option<(Seq<char>, Option<Seq<char>>, int)> {
    let e = id_end(s, i);
    if !(0 <= i < e) {
        None
    } else {
        match p_label(s, e) {
            Some((l, j)) => Some((s.subrange(i, e), Some(l), j)),
            None => Some((s.subrange(i, e), None, e)),
        }
    }
}

/// An arrow at `i`: the labelled form `--|text|-->`, else one of the plain
/// glyphs, tried in order.
pub open spec fn p_arrow(s: Seq<char>, i: int) -> Option<(Option<Seq<char>>, int)> {
    let labelled: Option<(Option<Seq<char>>, int)> = if lit_at_spec(s, "--"@, i) && i + 2 < s.len()
        && s[i + 2] == '|' {
        match crate::text::find_char_from(s, '|', i + 3) {
            Some(k) => if lit_at_spec(s, "-->"@, k + 1) {
                Some((Some(s.subrange(i + 3, k)), k + 1 + 3))
            } else {
                None
            },
            None => None,
        }
    } else {
        None
    };
    if labelled is Some {
        labelled
    } else if lit_at_spec(s, "-->"@, i) {
        Some((None, i + 3))
    } else if lit_at_spec(s, "---"@, i) {
        Some((None, i + 3))
    } else if lit_at_spec(s, "-.-"@, i) {
        Some((None, i + 3))
    } else if lit_at_spec(s, "-.->"@, i) {
        Some((None, i + 4))
    } else if lit_at_spec(s, "==>"@, i) {
        Some((None, i + 3))
    } else if lit_at_spec(s, "=="@, i) {
        Some((None, i + 2))
    } else if lit_at_spec(s, "~~>"@, i) {
        Some((None, i + 3))
    } else if lit_at_spec(s, "--o"@, i) {
        Some((None, i + 3))
    } else if lit_at_spec(s, "--x"@, i) {
        Some((None, i + 3))
    } else if lit_at_spec(s, "<-->"@, i) {
        Some((None, i + 4))
    } else if lit_at_spec(s, "o--o"@, i) {
        Some((None, i + 4))
    } else {
        None
    }
}

/// An edge line: node declaration, arrow, node declaration; trailing text
/// is ignored.
pub open spec fn p_edge_line(s: Seq<char>) -> Option<
    (Seq<char>, Option<Seq<char>>, Seq<char>, Option<Seq<char>>, Option<Seq<char>>),
> {
    match p_node_decl(s, 0) {
        None => None,
        Some((sid, slab, a)) => {
            let b = space_end(s, a);
            match p_arrow(s, b) {
                None => None,
                Some((elab, c)) => {
                    let d = space_end(s, c);
                    match p_node_decl(s, d) {
                        None => None,
                        Some((tid, tlab, _e)) => Some((sid, slab, tid, tlab, elab)),
                    }
                },
            }
        },
    }
}

/// Is this trimmed line outside the topology grammar: blank, a comment, or
/// a structural keyword line?
pub open spec fn line_skipped(t: Seq<char>) -> bool {
    t.len() == 0 || lit_at_spec(t, "%%"@, 0) || lit_at_spec(t, "graph "@, 0) || lit_at_spec(
        t,
        "flowchart "@,
        0,
    ) || lit_at_spec(t, "subgraph "@, 0) || t == "end"@
}

/// Does the node list already carry this id?
pub open spec fn topo_has_node(nodes: Seq<(Seq<char>, Option<Seq<char>>)>, id: Seq<char>) -> bool {
    exists|k: int| 0 <= k < nodes.len() && nodes[k].0 == id
}

/// The node and edge lists after reading one more line.
pub open spec fn topo_step(
    acc: (Seq<(Seq<char>, Option<Seq<char>>)>, Seq<(Seq<char>, Seq<char>, Option<Seq<char>>)>),
    line: Seq<char>,
) -> (Seq<(Seq<char>, Option<Seq<char>>)>, Seq<(Seq<char>, Seq<char>, Option<Seq<char>>)>) {
    let t = trim_spec(line);
    if line_skipped(t) {
        acc
    } else {
        match p_edge_line(t) {
            Some((sid, slab, tid, tlab, elab)) => {
                let ns1 = if topo_has_node(acc.0, sid) {
                    acc.0
                } else {
                    acc.0.push((sid, slab))
                };
                let ns2 = if topo_has_node(ns1, tid) {
                    ns1
                } else {
                    ns1.push((tid, tlab))
                };
                (ns2, acc.1.push((sid, tid, elab)))
            },
            None => match p_node_decl(t, 0) {
                Some((id, lab, _j)) => if topo_has_node(acc.0, id) {
                    acc
                } else {
                    (acc.0.push((id, lab)), acc.1)
                },
                None => acc,
            },
        }
    }
}

/// The node and edge lists of the lines from `i` on.
pub open spec fn topo_fold(
    lines: Seq<Seq<char>>,
    i: int,
    acc: (Seq<(Seq<char>, Option<Seq<char>>)>, Seq<(Seq<char>, Seq<char>, Option<Seq<char>>)>),
) -> (Seq<(Seq<char>, Option<Seq<char>>)>, Seq<(Seq<char>, Seq<char>, Option<Seq<char>>)>)
    decreases lines.len() - i,
{
    if !(0 <= i < lines.len()) {
        acc
    } else {
        topo_fold(lines, i + 1, topo_step(acc, lines[i]))
    }
}

/// What the topology parser reads out of a text.
pub open spec fn topo_spec(text: Seq<char>) -> (
    Seq<(Seq<char>, Option<Seq<char>>)>,
    Seq<(Seq<char>, Seq<char>, Option<Seq<char>>)>,
) {
    topo_fold(lines_spec(text), 0, (Seq::empty(), Seq::empty()))
}

/// No id occurs twice in a node list.
pub open spec fn topo_ids_unique(nodes: Seq<(Seq<char>, Option<Seq<char>>)>) -> bool {
    forall|i: int, j: int|
        0 <= i < j < nodes.len() ==> (#[trigger] nodes[i]).0 != (#[trigger] nodes[j]).0
}

proof fn lemma_topo_step_unique(
    acc: (Seq<(Seq<char>, Option<Seq<char>>)>, Seq<(Seq<char>, Seq<char>, Option<Seq<char>>)>),
    line: Seq<char>,
)
    requires
        topo_ids_unique(acc.0),
    ensures
        topo_ids_unique(topo_step(acc, line).0),
{
    let t = trim_spec(line);
    if !line_skipped(t) {
        match p_edge_line(t) {
            Some((sid, _slab, tid, _tlab, _elab)) => {
                let ns1 = if topo_has_node(acc.0, sid) {
                    acc.0
                } else {
                    acc.0.push((sid, p_edge_line(t)->Some_0.1))
                };
                assert(topo_ids_unique(ns1)) by {
                    if !topo_has_node(acc.0, sid) {
                        assert forall|i: int, j: int|
                            0 <= i < j < ns1.len() implies (#[trigger] ns1[i]).0 != (
                        #[trigger] ns1[j]).0 by {
                            if j == ns1.len() - 1 {
                                assert(!(acc.0[i].0 == sid));
                            }
                        }
                    }
                }
                let ns2 = if topo_has_node(ns1, tid) {
                    ns1
                } else {
                    ns1.push((tid, p_edge_line(t)->Some_0.3))
                };
                assert(topo_ids_unique(ns2)) by {
                    if !topo_has_node(ns1, tid) {
                        assert forall|i: int, j: int|
                            0 <= i < j < ns2.len() implies (#[trigger] ns2[i]).0 != (
                        #[trigger] ns2[j]).0 by {
                            if j == ns2.len() - 1 {
                                assert(!(ns1[i].0 == tid));
                            }
                        }
                    }
                }
            },
            None => {
                match p_node_decl(t, 0) {
                    Some((id, _lab, _j)) => {
                        if !topo_has_node(acc.0, id) {
                            let ns1 = acc.0.push((id, p_node_decl(t, 0)->Some_0.1));
                            assert forall|i: int, j: int|
                                0 <= i < j < ns1.len() implies (#[trigger] ns1[i]).0 != (
                            #[trigger] ns1[j]).0 by {
                                if j == ns1.len() - 1 {
                                    assert(!(acc.0[i].0 == id));
                                }
                            }
                        }
                    },
                    None => {},
                }
            },
        }
    }
}

proof fn lemma_topo_fold_unique(
    lines: Seq<Seq<char>>,
    i: int,
    acc: (Seq<(Seq<char>, Option<Seq<char>>)>, Seq<(Seq<char>, Seq<char>, Option<Seq<char>>)>),
)
    requires
        topo_ids_unique(acc.0),
    ensures
        topo_ids_unique(topo_fold(lines, i, acc).0),
    decreases lines.len() - i,
{
    if 0 <= i < lines.len() {
        lemma_topo_step_unique(acc, lines[i]);
        lemma_topo_fold_unique(lines, i + 1, topo_step(acc, lines[i]));
    }
}

/// The first occurrence of an id fixes its place: the parsed node list
/// never carries an id twice.
pub proof fn lemma_topo_spec_ids_unique(text: Seq<char>)
    ensures
        topo_ids_unique(topo_spec(text).0),
{
    lemma_topo_fold_unique(lines_spec(text), 0, (Seq::empty(), Seq::empty()));
}

/// The views of a parsed node list.
pub open spec fn node_pairs_view(v: Seq<(String, Option<String>)>) -> Seq<
    (Seq<char>, Option<Seq<char>>),
> {
    v.map(|i: int, e: (String, Option<String>)| (e.0@, crate::types::opt_str_view(e.1)))
}

/// The views of a parsed edge list.
pub open spec fn edge_triples_view(v: Seq<(String, String, Option<String>)>) -> Seq<
    (Seq<char>, Seq<char>, Option<Seq<char>>),
> {
    v.map(
        |i: int, e: (String, String, Option<String>)|
            (e.0@, e.1@, crate::types::opt_str_view(e.2)),
    )
}

// ---------------------------------------------------------------------------
// Executable parser
// ---------------------------------------------------------------------------

/// Try one bracketed label form.
fn try_delim(v: &Vec<char>, i: usize, open: &str, close: &str) -> (r: Option<(Vec<char>, usize)>)
    requires
        i <= v@.len(),
    ensures
        match r {
            Some(p) => delim_spec(v@, i as int, open@, close@) == Some((p.0@, p.1 as int)) && p.1
                <= v@.len(),
            None => delim_spec(v@, i as int, open@, close@) is None,
        },
{
    if !lit_at(v, i, open) {
        return None;
    }
    let onln = open.unicode_len();
    let cln = close.unicode_len();
    assert(i + onln <= v.len());
    match crate::text::find_lit(v, close, i + onln) {
        Some(j) => {
            assert(j + cln <= v.len());
            Some((subvec(v, i + onln, j), j + cln))
        },
        None => None,
    }
}

/// Parse a node declaration at `i`.
fn parse_node_decl(v: &Vec<char>, i: usize) -> (r: Option<(Vec<char>, Option<Vec<char>>, usize)>)
    requires
        i <= v@.len(),
    ensures
        match r {
            Some(p) => p_node_decl(v@, i as int) == Some(
                (p.0@, (match p.1 {
                    Some(l) => Some(l@),
                    None => None,
                }), p.2 as int),
            ) && p.2 <= v@.len(),
            None => p_node_decl(v@, i as int) is None,
        },
{
    let e = skip_id(v, i);
    if e <= i {
        return None;
    }
    let id = subvec(v, i, e);
    if let Some((l, j)) = try_delim(v, e, "[", "]") {
        return Some((id, Some(l), j));
    }
    if let Some((l, j)) = try_delim(v, e, "((", "))") {
        return Some((id, Some(l), j));
    }
    if let Some((l, j)) = try_delim(v, e, "([", "])") {
        return Some((id, Some(l), j));
    }
    if let Some((l, j)) = try_delim(v, e, "(", ")") {
        return Some((id, Some(l), j));
    }
    if let Some((l, j)) = try_delim(v, e, "{", "}") {
        return Some((id, Some(l), j));
    }
    if let Some((l, j)) = try_delim(v, e, "{{", "}}") {
        return Some((id, Some(l), j));
    }
    if let Some((l, j)) = try_delim(v, e, ">", "]") {
        return Some((id, Some(l), j));
    }
    if let Some((l, j)) = try_delim(v, e, "[/", "/]") {
        return Some((id, Some(l), j));
    }
    if let Some((l, j)) = try_delim(v, e, "[\\", "\\]") {
        return Some((id, Some(l), j));
    }
    Some((id, None, e))
}

/// Parse an arrow at `i`.
fn parse_arrow(v: &Vec<char>, i: usize) -> (r: Option<(Option<Vec<char>>, usize)>)
    requires
        i <= v@.len(),
    ensures
        match r {
            Some(p) => p_arrow(v@, i as int) == Some(
                ((match p.0 {
                    Some(l) => Some(l@),
                    None => None,
                }), p.1 as int),
            ) && p.1 <= v@.len(),
            None => p_arrow(v@, i as int) is None,
        },
{
    if lit_at(v, i, "--") && v.len() - i > 2 && v[i + 2] == '|' {
        match crate::text::find_char(v, '|', i + 3) {
            Some(k) => {
                if lit_at(v, k + 1, "-->") {
                    proof {
                        reveal_strlit("-->");
                        assert(k + 1 + 3 <= v.len());
                    }
                    return Some((Some(subvec(v, i + 3, k)), k + 1 + 3));
                }
            },
            None => {},
        }
    }
    if lit_at(v, i, "-->") {
        proof {
            reveal_strlit("-->");
            assert(i + 3 <= v.len());
        }
        return Some((None, i + 3));
    }
    if lit_at(v, i, "---") {
        proof {
            reveal_strlit("---");
            assert(i + 3 <= v.len());
        }
        return Some((None, i + 3));
    }
    if lit_at(v, i, "-.-") {
        proof {
            reveal_strlit("-.-");
            assert(i + 3 <= v.len());
        }
        return Some((None, i + 3));
    }
    if lit_at(v, i, "-.->") {
        proof {
            reveal_strlit("-.->");
            assert(i + 4 <= v.len());
        }
        return Some((None, i + 4));
    }
    if lit_at(v, i, "==>") {
        proof {
            reveal_strlit("==>");
            assert(i + 3 <= v.len());
        }
        return Some((None, i + 3));
    }
    if lit_at(v, i, "==") {
        proof {
            reveal_strlit("==");
            assert(i + 2 <= v.len());
        }
        return Some((None, i + 2));
    }
    if lit_at(v, i, "~~>") {
        proof {
            reveal_strlit("~~>");
            assert(i + 3 <= v.len());
        }
        return Some((None, i + 3));
    }
    if lit_at(v, i, "--o") {
        proof {
            reveal_strlit("--o");
            assert(i + 3 <= v.len());
        }
        return Some((None, i + 3));
    }
    if lit_at(v, i, "--x") {
        proof {
            reveal_strlit("--x");
            assert(i + 3 <= v.len());
        }
        return Some((None, i + 3));
    }
    if lit_at(v, i, "<-->") {
        proof {
            reveal_strlit("<-->");
            assert(i + 4 <= v.len());
        }
        return Some((None, i + 4));
    }
    if lit_at(v, i, "o--o") {
        proof {
            reveal_strlit("o--o");
            assert(i + 4 <= v.len());
        }
        return Some((None, i + 4));
    }
    None
}

/// Parse an edge line out of a trimmed line.
fn parse_edge_line(t: &Vec<char>) -> (r: Option<
    (Vec<char>, Option<Vec<char>>, Vec<char>, Option<Vec<char>>, Option<Vec<char>>),
>)
    ensures
        match r {
            Some(p) => p_edge_line(t@) == Some(
                (p.0@, (match p.1 {
                    Some(l) => Some(l@),
                    None => None,
                }), p.2@, (match p.3 {
                    Some(l) => Some(l@),
                    None => None,
                }), (match p.4 {
                    Some(l) => Some(l@),
                    None => None,
                })),
            ),
            None => p_edge_line(t@) is None,
        },
{
    match parse_node_decl(t, 0) {
        None => None,
        Some((sid, slab, a)) => {
            let b = skip_space(t, a);
            match parse_arrow(t, b) {
                None => None,
                Some((elab, c)) => {
                    let d = skip_space(t, c);
                    match parse_node_decl(t, d) {
                        None => None,
                        Some((tid, tlab, _e)) => Some((sid, slab, tid, tlab, elab)),
                    }
                },
            }
        },
    }
}

/// Does the parsed node list already carry this id?
fn has_node_id(nodes: &Vec<(String, Option<String>)>, id: &String) -> (r: bool)
    ensures
        r == topo_has_node(node_pairs_view(nodes@), id@),
{
    let mut k: usize = 0;
    while k < nodes.len()
        invariant
            0 <= k <= nodes@.len(),
            forall|j: int| 0 <= j < k ==> node_pairs_view(nodes@)[j].0 != id@,
        decreases nodes@.len() - k,
    {
        if str_eq(nodes[k].0.as_str(), id.as_str()) {
            proof {
                assert(node_pairs_view(nodes@)[k as int].0 == id@);
            }
            return true;
        }
        proof {
            assert(node_pairs_view(nodes@)[k as int].0 == nodes@[k as int].0@);
        }
        k = k + 1;
    }
    false
}

/// Parse the topology of a diagram text, returning its nodes
/// (id, optional label) and edges (source id, target id, optional label),
/// in order of first occurrence.
#[verifier::loop_isolation(false)]
pub fn parse_mermaid_topology(input: &str) -> (r: Result<
    (Vec<(String, Option<String>)>, Vec<(String, String, Option<String>)>),
    Error,
>)
    ensures
        r is Ok,
        ({
            let p = r->Ok_0;
            (node_pairs_view(p.0@), edge_triples_view(p.1@)) == topo_spec(input@)
        }),
{
    let chars = chars_vec(input);
    let lines = split_lines(&chars);
    let mut nodes: Vec<(String, Option<String>)> = Vec::new();
    let mut edges: Vec<(String, String, Option<String>)> = Vec::new();
    let mut li: usize = 0;
    proof {
        assert(node_pairs_view(nodes@) =~= Seq::<(Seq<char>, Option<Seq<char>>)>::empty());
        assert(edge_triples_view(edges@) =~= Seq::<
            (Seq<char>, Seq<char>, Option<Seq<char>>),
        >::empty());
    }
    while li < lines.len()
        invariant
            0 <= li <= lines@.len(),
            topo_spec(input@) == topo_fold(
                crate::text::vecvec_view(lines@),
                li as int,
                (node_pairs_view(nodes@), edge_triples_view(edges@)),
            ),
        decreases lines@.len() - li,
    {
        let ghost nodes0 = node_pairs_view(nodes@);
        let ghost edges0 = edge_triples_view(edges@);
        let ghost lview = lines@[li as int]@;
        let t = trim(&lines[li]);
        let skipped = t.len() == 0 || lit_at(&t, 0, "%%") || lit_at(&t, 0, "graph ") || lit_at(
            &t,
            0,
            "flowchart ",
        ) || lit_at(&t, 0, "subgraph ") || (t.len() == 3 && lit_at(&t, 0, "end"));
        proof {
            if t.len() == 3 && lit_at_spec(t@, "end"@, 0) {
                reveal_strlit("end");
                assert(t@ =~= "end"@);
            }
            if t@ == "end"@ {
                reveal_strlit("end");
                assert(t.len() == 3 && lit_at_spec(t@, "end"@, 0)) by {
                    assert(t@.subrange(0, 3) =~= "end"@);
                }
            }
            assert(skipped == line_skipped(t@));
        }
        if !skipped {
            match parse_edge_line(&t) {
                Some((sid, slab, tid, tlab, elab)) => {
                    let sid_s = string_from_chars(&sid);
                    let tid_s = string_from_chars(&tid);
                    if !has_node_id(&nodes, &sid_s) {
                        let slab_s = match slab {
                            Some(l) => Some(string_from_chars(&l)),
                            None => None,
                        };
                        nodes.push((sid_s.clone(), slab_s));
                        proof {
                            assert(node_pairs_view(nodes@) =~= nodes0.push(
                                (sid@, p_edge_line(t@)->Some_0.1),
                            ));
                        }
                    }
                    if !has_node_id(&nodes, &tid_s) {
                        let tlab_s = match tlab {
                            Some(l) => Some(string_from_chars(&l)),
                            None => None,
                        };
                        nodes.push((tid_s.clone(), tlab_s));
                        proof {
                            assert(node_pairs_view(nodes@) =~= node_pairs_view(
                                nodes@.drop_last(),
                            ).push((tid@, p_edge_line(t@)->Some_0.3)));
                        }
                    }
                    let elab_s = match elab {
                        Some(l) => Some(string_from_chars(&l)),
                        None => None,
                    };
                    edges.push((sid_s, tid_s, elab_s));
                    proof {
                        assert(edge_triples_view(edges@) =~= edges0.push(
                            (sid@, tid@, p_edge_line(t@)->Some_0.4),
                        ));
                    }
                },
                None => {
                    match parse_node_decl(&t, 0) {
                        Some((id, lab, _j)) => {
                            let id_s = string_from_chars(&id);
                            if !has_node_id(&nodes, &id_s) {
                                let lab_s = match lab {
                                    Some(l) => Some(string_from_chars(&l)),
                                    None => None,
                                };
                                nodes.push((id_s, lab_s));
                                proof {
                                    assert(node_pairs_view(nodes@) =~= nodes0.push(
                                        (id@, p_node_decl(t@, 0)->Some_0.1),
                                    ));
                                }
                            }
                        },
                        None => {},
                    }
                },
            }
        }
        proof {
            assert((node_pairs_view(nodes@), edge_triples_view(edges@)) == topo_step(
                (nodes0, edges0),
                lview,
            ));
        }
        li = li + 1;
    }
    Ok((nodes, edges))
}

} // verus!
