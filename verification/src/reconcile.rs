//! The reconciliation engine: diff a fresh parse against an existing
//! store, preserving identity and reporting orphans.
//!
//! Identity continuity comes first: a mermaid id already aliased in the
//! existing store keeps its UID, whatever UID the incoming directive
//! carries, and edge endpoints follow the UIDs their nodes resolved to.
//! A new store is always built from scratch; the prior store is never
//! touched, and the orphan lists only describe the delta.

use vstd::prelude::*;
use vstd::string::StringExecFns;

use crate::document::{
    doc_of, doc_warnings, edge_dir_for, endpoint_uid, node_dir_for, parse_document,
    resolved_parsed_edge, resolved_parsed_node, strs_view, DocView,
};
use crate::seqs::{idx_of, lemma_idx_of, lemma_idx_of_is};
use crate::store::{
    alias_lookup, edge_active_pred, edges_view, find_edge_idx, find_node_idx, fold_upsert_edges,
    fold_upsert_nodes, lemma_fold_upsert_edges_push, lemma_fold_upsert_nodes_push,
    node_active_pred, nodes_view, store_wf, GraphStore,
};
use crate::text::{chars_vec, push_all, push_lit, str_eq, string_from_chars};
use crate::types::{
    clone_opt_string, fresh_eid_shape, Edge, EdgeView, Node, NodeKind, NodeView, EID, UID,
};
use crate::writer::generate_spec;
use crate::Error;

verus! {

/// Reconciliation result: the regenerated text, the new store, warnings,
/// and the identities that dropped out of the topology.
#[derive(Debug)]
pub struct ReconcileResult {
    pub text: String,
    pub store: GraphStore,
    pub warnings: Vec<String>,
    pub orphaned_nodes: Vec<UID>,
    pub orphaned_edges: Vec<EID>,
}

pub open spec fn uids_view(s: Seq<UID>) -> Seq<Seq<char>> {
    s.map(|i: int, u: UID| u.0@)
}

pub open spec fn eids_view(s: Seq<EID>) -> Seq<Seq<char>> {
    s.map(|i: int, e: EID| e.0@)
}

/// The UID a reconciled node resolves to: the alias of its mermaid id in
/// the existing store when there is one, else the parser's UID.
pub open spec fn resolved_uid_link(
    sa: Seq<(Seq<char>, Seq<char>)>,
    d: DocView,
    pns: Seq<NodeView>,
    i: int,
    u: Seq<char>,
) -> bool {
    u == (match alias_lookup(sa, d.topo_nodes[i].0) {
        Some(au) => au,
        None => pns[i].uid,
    })
}

/// The merged fields of a reconciled node: mermaid id and label from the
/// fresh parse; position, kind and meta overwritten only when the parse
/// supplies them; everything else surviving from the prior node, or blank
/// when there is none.
pub open spec fn merged_fields_ok(d: DocView, sns: Seq<NodeView>, i: int, m: NodeView) -> bool {
    let id = d.topo_nodes[i].0;
    let dir = node_dir_for(d.node_dirs, id);
    let px: Option<i64> = match dir {
        Some(nd) => match nd.x {
            Some(x) => Some(x as i64),
            None => None,
        },
        None => None,
    };
    let py: Option<i64> = match dir {
        Some(nd) => match nd.y {
            Some(y) => Some(y as i64),
            None => None,
        },
        None => None,
    };
    let pkind = match dir {
        Some(nd) => match nd.kind {
            Some(k) => crate::document::kind_of_str(k),
            None => NodeKind::Card,
        },
        None => NodeKind::Card,
    };
    let pmeta = match dir {
        Some(nd) => nd.meta,
        None => None,
    };
    &&& m.mermaid_id == id
    &&& m.label == d.topo_nodes[i].1
    &&& (match find_node_idx(sns, m.uid) {
        Some(pi) => {
            let prior = sns[pi];
            &&& m.x == (match px {
                Some(x) => Some(x),
                None => prior.x,
            })
            &&& m.y == (match py {
                Some(y) => Some(y),
                None => prior.y,
            })
            &&& m.kind == (if pkind != NodeKind::Card {
                pkind
            } else {
                prior.kind
            })
            &&& m.meta == (match pmeta {
                Some(mm) => Some(mm),
                None => prior.meta,
            })
            &&& m.style == prior.style
            &&& m.code == prior.code
            &&& m.media == prior.media
            &&& m.diagram == prior.diagram
            &&& m.markdown == prior.markdown
            &&& !m.deleted
            &&& m.updated_at == prior.updated_at
        },
        None => {
            &&& m.x == px
            &&& m.y == py
            &&& m.kind == pkind
            &&& m.meta == pmeta
            &&& m.style is None
            &&& m.code is None
            &&& m.media is None
            &&& m.diagram is None
            &&& m.markdown is None
            &&& !m.deleted
            &&& m.updated_at is Some
        },
    })
}

/// The UID an edge endpoint follows: the parsed node that carries the
/// endpoint's parse-time UID continues, at the same position, as the
/// merged node whose UID the alias resolution chose; an endpoint no
/// parsed node carries keeps its text.
pub open spec fn continued_uid(pns: Seq<NodeView>, mns: Seq<NodeView>, u: Seq<char>) -> Seq<char> {
    match idx_of(pns, crate::store::node_uid_pred(u)) {
        Some(k) => if 0 <= k < mns.len() {
            mns[k].uid
        } else {
            u
        },
        None => u,
    }
}

/// The edge predicate on a (source, target) pair of UIDs.
pub open spec fn edge_match_pred(src: Seq<char>, tgt: Seq<char>) -> spec_fn(EdgeView) -> bool {
    |e: EdgeView| e.source == src && e.target == tgt
}

/// The label a parsed edge carries: the topology label, else its
/// directive's.
pub open spec fn parsed_edge_label(d: DocView, j: int) -> Option<Seq<char>> {
    match d.topo_edges[j].2 {
        Some(l) => Some(l),
        None => match edge_dir_for(d.edge_dirs, d.topo_edges[j].0, d.topo_edges[j].1) {
            Some(ed) => ed.label,
            None => None,
        },
    }
}

/// The meta a parsed edge carries: its directive's body, if any.
pub open spec fn parsed_edge_meta(d: DocView, j: int) -> Option<
    Seq<(Seq<char>, crate::json::JsonValView)>,
> {
    match edge_dir_for(d.edge_dirs, d.topo_edges[j].0, d.topo_edges[j].1) {
        Some(ed) => ed.meta,
        None => None,
    }
}

/// One reconciled edge: endpoints follow the identity continuity of
/// their nodes, identity comes from the first matching active edge of the
/// existing store (topological identity beats the embedded eid), and the
/// rest is merged from whatever prior edge carries the resolved EID. An
/// edge present in the fresh topology is active, whatever its prior row's
/// flag said.
pub open spec fn reconciled_edge_ok(
    d: DocView,
    ses: Seq<EdgeView>,
    pns: Seq<NodeView>,
    mns: Seq<NodeView>,
    j: int,
    m: EdgeView,
) -> bool {
    let src_id = d.topo_edges[j].0;
    let tgt_id = d.topo_edges[j].1;
    let pe_src = endpoint_uid(d, pns, src_id);
    let pe_tgt = endpoint_uid(d, pns, tgt_id);
    let src_u = continued_uid(pns, mns, pe_src);
    let tgt_u = continued_uid(pns, mns, pe_tgt);
    let sact = ses.filter(edge_active_pred());
    &&& m.source == src_u
    &&& m.target == tgt_u
    &&& (match idx_of(sact, edge_match_pred(src_u, tgt_u)) {
        Some(ai) => m.eid == sact[ai].eid,
        None => (match edge_dir_for(d.edge_dirs, src_id, tgt_id) {
            Some(ed) => (match ed.eid {
                Some(x) => m.eid == x,
                None => fresh_eid_shape(m.eid),
            }),
            None => fresh_eid_shape(m.eid),
        }),
    })
    &&& (match find_edge_idx(ses, m.eid) {
        Some(pi) => {
            let prior = ses[pi];
            &&& m.label == (match parsed_edge_label(d, j) {
                Some(l) => Some(l),
                None => prior.label,
            })
            &&& m.meta == (match parsed_edge_meta(d, j) {
                Some(x) => Some(x),
                None => prior.meta,
            })
            &&& m.style == prior.style
            &&& !m.deleted
            &&& m.updated_at == prior.updated_at
        },
        None => {
            &&& m.label == parsed_edge_label(d, j)
            &&& m.meta == parsed_edge_meta(d, j)
            &&& m.style is None
            &&& !m.deleted
            &&& m.updated_at is Some
        },
    })
}

/// The UIDs of the given active nodes that are absent from the new table,
/// in order.
pub open spec fn orphan_node_uids(
    act: Seq<NodeView>,
    new: Seq<NodeView>,
    i: int,
    acc: Seq<Seq<char>>,
) -> Seq<Seq<char>>
    decreases act.len() - i,
{
    if !(0 <= i < act.len()) {
        acc
    } else {
        orphan_node_uids(
            act,
            new,
            i + 1,
            if find_node_idx(new, act[i].uid) is Some {
                acc
            } else {
                acc.push(act[i].uid)
            },
        )
    }
}

/// The EIDs of the given active edges that are absent from the new table.
pub open spec fn orphan_edge_eids(
    act: Seq<EdgeView>,
    new: Seq<EdgeView>,
    j: int,
    acc: Seq<Seq<char>>,
) -> Seq<Seq<char>>
    decreases act.len() - j,
{
    if !(0 <= j < act.len()) {
        acc
    } else {
        orphan_edge_eids(
            act,
            new,
            j + 1,
            if find_edge_idx(new, act[j].eid) is Some {
                acc
            } else {
                acc.push(act[j].eid)
            },
        )
    }
}

/// The identifiers quoted and joined, as the orphan warning prints them.
pub open spec fn quoted_join(uids: Seq<Seq<char>>, i: int, acc: Seq<char>) -> Seq<char>
    decreases uids.len() - i,
{
    if !(0 <= i < uids.len()) {
        acc
    } else {
        let sep: Seq<char> = if i > 0 {
            ", "@
        } else {
            Seq::empty()
        };
        quoted_join(uids, i + 1, acc + sep + seq!['"'] + uids[i] + seq!['"'])
    }
}

/// The warning line reporting orphaned nodes.
pub open spec fn orphan_warning(uids: Seq<Seq<char>>) -> Seq<char> {
    "Orphaned nodes: ["@ + quoted_join(uids, 0, Seq::empty()) + "]"@
}

/// Everything reconcile promises about its result, over the deterministic
/// reading `d` of the input text and the existing store's tables. The
/// parsed nodes `pns` and merged tables `mns`/`mes` witness the fresh
/// identifiers that were drawn.
pub open spec fn reconcile_rel(
    d: DocView,
    sns: Seq<NodeView>,
    ses: Seq<EdgeView>,
    sa: Seq<(Seq<char>, Seq<char>)>,
    pns: Seq<NodeView>,
    mns: Seq<NodeView>,
    mes: Seq<EdgeView>,
    r: &ReconcileResult,
) -> bool {
    &&& pns.len() == d.topo_nodes.len()
    &&& (forall|i: int| 0 <= i < pns.len() ==> resolved_parsed_node(d, i, #[trigger] pns[i]))
    &&& mns.len() == d.topo_nodes.len()
    &&& (forall|i: int|
        0 <= i < mns.len() ==> resolved_uid_link(sa, d, pns, i, (#[trigger] mns[i]).uid))
    &&& (forall|i: int| 0 <= i < mns.len() ==> merged_fields_ok(d, sns, i, #[trigger] mns[i]))
    &&& mes.len() == d.topo_edges.len()
    &&& (forall|j: int|
        0 <= j < mes.len() ==> reconciled_edge_ok(d, ses, pns, mns, j, #[trigger] mes[j]))
    &&& (nodes_view(r.store.nodes@), r.store.alias@) == fold_upsert_nodes(mns)
    &&& edges_view(r.store.edges@) == fold_upsert_edges(mes)
    &&& uids_view(r.orphaned_nodes@) == orphan_node_uids(
        sns.filter(node_active_pred()),
        nodes_view(r.store.nodes@),
        0,
        Seq::empty(),
    )
    &&& eids_view(r.orphaned_edges@) == orphan_edge_eids(
        ses.filter(edge_active_pred()),
        edges_view(r.store.edges@),
        0,
        Seq::empty(),
    )
    &&& strs_view(r.warnings@) == doc_warnings(d, 0, Seq::empty()) + (if uids_view(
        r.orphaned_nodes@,
    ).len() == 0 {
        Seq::<Seq<char>>::empty()
    } else {
        seq![orphan_warning(uids_view(r.orphaned_nodes@))]
    })
    &&& r.text@ == generate_spec(nodes_view(r.store.nodes@), edges_view(r.store.edges@), "TD"@)
}

// ---------------------------------------------------------------------------
// Laws
// ---------------------------------------------------------------------------

/// Idempotent canonicalization: the canonical writer is a pure function of
/// the store's tables, and reconciliation returns exactly its output, so
/// generating from a reconciled store reproduces the reconciled text byte
/// for byte.
pub proof fn lemma_idempotent_canonicalization(
    d: DocView,
    sns: Seq<NodeView>,
    ses: Seq<EdgeView>,
    sa: Seq<(Seq<char>, Seq<char>)>,
    pns: Seq<NodeView>,
    mns: Seq<NodeView>,
    mes: Seq<EdgeView>,
    r: &ReconcileResult,
)
    requires
        reconcile_rel(d, sns, ses, sa, pns, mns, mes, r),
    ensures
        generate_spec(nodes_view(r.store.nodes@), edges_view(r.store.edges@), "TD"@) == r.text@,
{
}

/// Every upserted UID stays present in the folded table.
pub proof fn lemma_fold_upsert_keeps_uid(s: Seq<NodeView>, i: int)
    requires
        0 <= i < s.len(),
    ensures
        exists|k: int|
            0 <= k < fold_upsert_nodes(s).0.len() && (#[trigger] fold_upsert_nodes(s).0[k]).uid
                == s[i].uid,
    decreases s.len(),
{
    let prev = fold_upsert_nodes(s.drop_last());
    let cur = fold_upsert_nodes(s);
    lemma_idx_of(prev.0, crate::store::node_uid_pred(s.last().uid));
    if i == s.len() - 1 {
        match find_node_idx(prev.0, s.last().uid) {
            Some(ui) => {
                assert(cur.0[ui].uid == s[i].uid);
            },
            None => {
                assert(cur.0[cur.0.len() - 1].uid == s[i].uid);
            },
        }
    } else {
        assert(s.drop_last()[i] == s[i]);
        lemma_fold_upsert_keeps_uid(s.drop_last(), i);
        let k = choose|k: int|
            0 <= k < prev.0.len() && (#[trigger] prev.0[k]).uid == s.drop_last()[i].uid;
        match find_node_idx(prev.0, s.last().uid) {
            Some(ui) => {
                if k == ui {
                    assert(prev.0[ui].uid == s.last().uid);
                    assert(cur.0[ui].uid == s.last().uid);
                    assert(cur.0[ui].uid == s[i].uid);
                } else {
                    assert(cur.0[k] == prev.0[k]);
                    assert(cur.0[k].uid == s[i].uid);
                }
            },
            None => {
                assert(cur.0[k] == prev.0[k]);
                assert(cur.0[k].uid == s[i].uid);
            },
        }
    }
}

/// Identity preservation: when the existing store aliases a mermaid id to
/// a UID and the fresh topology still declares that id, the reconciled
/// store contains a node row carrying that UID and still aliases the id
/// to it, whatever the incoming directives embed. The two uniqueness
/// hypotheses hold of every real document: the parsed node list never
/// declares an id twice (`lemma_topo_spec_ids_unique`), and no other
/// node may resolve to the same UID — a directive on a different node
/// claiming this very UID is the one input left out.
pub proof fn lemma_identity_preservation(
    d: DocView,
    sns: Seq<NodeView>,
    ses: Seq<EdgeView>,
    sa: Seq<(Seq<char>, Seq<char>)>,
    pns: Seq<NodeView>,
    mns: Seq<NodeView>,
    mes: Seq<EdgeView>,
    r: &ReconcileResult,
    i: int,
    m: Seq<char>,
    u: Seq<char>,
)
    requires
        reconcile_rel(d, sns, ses, sa, pns, mns, mes, r),
        crate::store::alias_wf(r.store.alias@),
        0 <= i < d.topo_nodes.len(),
        d.topo_nodes[i].0 == m,
        alias_lookup(sa, m) == Some(u),
        forall|j: int| 0 <= j < d.topo_nodes.len() && j != i ==> (#[trigger] d.topo_nodes[j]).0 != m,
        forall|j: int| 0 <= j < mns.len() && j != i ==> (#[trigger] mns[j]).uid != u,
    ensures
        find_node_idx(nodes_view(r.store.nodes@), u) is Some,
        alias_lookup(r.store.alias@, m) == Some(u),
{
    assert(resolved_uid_link(sa, d, pns, i, mns[i].uid));
    assert(mns[i].uid == u);
    assert(merged_fields_ok(d, sns, i, mns[i]));
    assert(mns[i].mermaid_id == m);
    lemma_fold_upsert_keeps_uid(mns, i);
    let nn = nodes_view(r.store.nodes@);
    lemma_idx_of(nn, crate::store::node_uid_pred(u));
    if find_node_idx(nn, u) is None {
        let k = choose|k: int| 0 <= k < nn.len() && (#[trigger] nn[k]).uid == mns[i].uid;
        assert(false);
    }
    // the alias of the new store still carries (m, u)
    assert(forall|j: int|
        i < j < mns.len() ==> (#[trigger] mns[j]).mermaid_id != mns[i].mermaid_id && mns[j].uid
            != mns[i].uid) by {
        assert(forall|j: int|
            i < j < mns.len() ==> merged_fields_ok(d, sns, j, #[trigger] mns[j]));
    }
    crate::store::lemma_fold_alias_contains(mns, i);
    let aa = r.store.alias@;
    let k2 = choose|k2: int| 0 <= k2 < aa.len() && #[trigger] aa[k2] == (m, u);
    lemma_idx_of(aa, crate::store::alias_key_pred(m));
    match idx_of(aa, crate::store::alias_key_pred(m)) {
        Some(f) => {
            if f != k2 {
                assert(aa[f].0 == m && aa[k2].0 == m);
                assert(false);
            }
            assert(alias_lookup(aa, m) == Some(u));
        },
        None => {
            assert(aa[k2].0 == m);
            assert(false);
        },
    }
}

/// Whatever the accumulator already holds stays in the orphan list.
proof fn lemma_orphan_monotone(
    act: Seq<NodeView>,
    new: Seq<NodeView>,
    i: int,
    acc: Seq<Seq<char>>,
    x: Seq<char>,
)
    requires
        acc.contains(x),
    ensures
        orphan_node_uids(act, new, i, acc).contains(x),
    decreases act.len() - i,
{
    if 0 <= i < act.len() {
        let acc2 = if find_node_idx(new, act[i].uid) is Some {
            acc
        } else {
            acc.push(act[i].uid)
        };
        assert(acc2.contains(x)) by {
            let w = choose|w: int| 0 <= w < acc.len() && acc[w] == x;
            assert(acc2[w] == x);
        }
        lemma_orphan_monotone(act, new, i + 1, acc2, x);
    }
}

proof fn lemma_orphan_at(
    act: Seq<NodeView>,
    new: Seq<NodeView>,
    j: int,
    acc: Seq<Seq<char>>,
    i: int,
)
    requires
        0 <= j <= i < act.len(),
        find_node_idx(new, act[i].uid) is None,
    ensures
        orphan_node_uids(act, new, j, acc).contains(act[i].uid),
    decreases act.len() - j,
{
    let acc2 = if find_node_idx(new, act[j].uid) is Some {
        acc
    } else {
        acc.push(act[j].uid)
    };
    if j == i {
        assert(acc2[acc2.len() - 1] == act[i].uid);
        assert(acc2.contains(act[i].uid));
        lemma_orphan_monotone(act, new, j + 1, acc2, act[i].uid);
    } else {
        lemma_orphan_at(act, new, j + 1, acc2, i);
    }
}

/// Orphan correctness: an active node of the existing store whose UID is
/// absent from the reconciled store appears in the orphan list, is absent
/// from the new store's active view, and stays retrievable from the old
/// store by its UID.
pub proof fn lemma_orphan_correctness(
    d: DocView,
    sns: Seq<NodeView>,
    ses: Seq<EdgeView>,
    sa: Seq<(Seq<char>, Seq<char>)>,
    pns: Seq<NodeView>,
    mns: Seq<NodeView>,
    mes: Seq<EdgeView>,
    r: &ReconcileResult,
    i: int,
)
    requires
        reconcile_rel(d, sns, ses, sa, pns, mns, mes, r),
        0 <= i < sns.filter(node_active_pred()).len(),
        find_node_idx(
            nodes_view(r.store.nodes@),
            sns.filter(node_active_pred())[i].uid,
        ) is None,
    ensures
        uids_view(r.orphaned_nodes@).contains(sns.filter(node_active_pred())[i].uid),
        (forall|k: int|
            0 <= k < nodes_view(r.store.nodes@).filter(node_active_pred()).len()
                ==> (#[trigger] nodes_view(r.store.nodes@).filter(node_active_pred())[k]).uid
                != sns.filter(node_active_pred())[i].uid),
        find_node_idx(sns, sns.filter(node_active_pred())[i].uid) is Some,
{
    let act = sns.filter(node_active_pred());
    let new = nodes_view(r.store.nodes@);
    let u = act[i].uid;
    lemma_orphan_at(act, new, 0, Seq::empty(), i);
    // absent from the new active view
    let newact = new.filter(node_active_pred());
    crate::seqs::lemma_filter_sub(new, node_active_pred());
    lemma_idx_of(new, crate::store::node_uid_pred(u));
    assert forall|k: int| 0 <= k < newact.len() implies (#[trigger] newact[k]).uid != u by {
        if newact[k].uid == u {
            let w = choose|w: int| 0 <= w < new.len() && new[w] == newact[k];
            assert(new[w].uid == u);
            assert(false);
        }
    }
    // still retrievable from the old store
    crate::seqs::lemma_filter_sub(sns, node_active_pred());
    let w2 = choose|w: int| 0 <= w < sns.len() && sns[w] == act[i];
    lemma_idx_of(sns, crate::store::node_uid_pred(u));
    if find_node_idx(sns, u) is None {
        assert(sns[w2].uid == u);
        assert(false);
    }
}

/// Merge precedence: a directive supplying only a position updates it
/// without erasing an unrelated previously stored style payload.
pub proof fn lemma_merge_precedence(
    d: DocView,
    sns: Seq<NodeView>,
    i: int,
    m: NodeView,
    pi: int,
    xv: i32,
)
    requires
        merged_fields_ok(d, sns, i, m),
        find_node_idx(sns, m.uid) == Some(pi),
        0 <= pi < sns.len(),
        (match node_dir_for(d.node_dirs, d.topo_nodes[i].0) {
            Some(nd) => nd.x == Some(xv),
            None => false,
        }),
    ensures
        m.x == Some(xv as i64),
        m.style == sns[pi].style,
        m.code == sns[pi].code,
        m.media == sns[pi].media,
    decreases 0int,
{
}

// ---------------------------------------------------------------------------
// Executable engine
// ---------------------------------------------------------------------------

/// The merged node an endpoint's parse-time UID continues as.
#[verifier::loop_isolation(false)]
fn continued_endpoint(parsed_nodes: &Vec<Node>, merged: &Vec<Node>, key: &str) -> (r: UID)
    requires
        parsed_nodes@.len() == merged@.len(),
    ensures
        r.0@ == continued_uid(nodes_view(parsed_nodes@), nodes_view(merged@), key@),
{
    let ghost pv = nodes_view(parsed_nodes@);
    let ghost p = crate::store::node_uid_pred(key@);
    let mut k: usize = 0;
    loop
        invariant
            0 <= k <= parsed_nodes@.len(),
            forall|j: int| 0 <= j < k ==> !p(pv[j]),
        decreases parsed_nodes@.len() - k,
    {
        if k >= parsed_nodes.len() {
            proof {
                lemma_idx_of(pv, p);
                if idx_of(pv, p) is Some {
                    assert(p(pv[idx_of(pv, p)->0]));
                    assert(false);
                }
            }
            return UID::from_str(key);
        }
        if str_eq(parsed_nodes[k].uid.0.as_str(), key) {
            proof {
                assert(p(pv[k as int]));
                lemma_idx_of_is(pv, p, k as int);
            }
            return merged[k].uid.clone();
        }
        proof {
            assert(pv[k as int].uid == parsed_nodes@[k as int].uid.0@);
        }
        k = k + 1;
    }
}

/// The first active edge of the existing store joining the two UIDs.
#[verifier::loop_isolation(false)]
fn find_active_match(act: &Vec<Edge>, src: &UID, tgt: &UID) -> (r: Option<usize>)
    ensures
        match r {
            Some(k) => idx_of(edges_view(act@), edge_match_pred(src.0@, tgt.0@)) == Some(k as int)
                && k < act@.len(),
            None => idx_of(edges_view(act@), edge_match_pred(src.0@, tgt.0@)) is None,
        },
{
    let ghost es = edges_view(act@);
    let ghost p = edge_match_pred(src.0@, tgt.0@);
    let mut k: usize = 0;
    loop
        invariant
            0 <= k <= act@.len(),
            forall|j: int| 0 <= j < k ==> !p(es[j]),
        decreases act@.len() - k,
    {
        if k >= act.len() {
            proof {
                lemma_idx_of(es, p);
                if idx_of(es, p) is Some {
                    assert(p(es[idx_of(es, p)->0]));
                    assert(false);
                }
            }
            return None;
        }
        if str_eq(act[k].source.0.as_str(), src.0.as_str()) && str_eq(
            act[k].target.0.as_str(),
            tgt.0.as_str(),
        ) {
            proof {
                assert(p(es[k as int]));
                lemma_idx_of_is(es, p, k as int);
            }
            return Some(k);
        }
        proof {
            assert(es[k as int].source == act@[k as int].source.0@);
            assert(es[k as int].target == act@[k as int].target.0@);
        }
        k = k + 1;
    }
}

/// Reconcile fresh topology text with an existing store, building a new
/// store that keeps every identity the text still declares.
#[verifier::loop_isolation(false)]
#[verifier::rlimit(100)]
pub fn reconcile(topology_text: &str, existing_store: &GraphStore) -> (r: Result<
    ReconcileResult,
    Error,
>)
    ensures
        r is Ok,
        store_wf(&r->Ok_0.store),
        (exists|pns: Seq<NodeView>, mns: Seq<NodeView>, mes: Seq<EdgeView>|
            reconcile_rel(
                doc_of(topology_text@),
                nodes_view(existing_store.nodes@),
                edges_view(existing_store.edges@),
                existing_store.alias@,
                pns,
                mns,
                mes,
                &r->Ok_0,
            )),
{
    let ghost d = doc_of(topology_text@);
    let ghost sns = nodes_view(existing_store.nodes@);
    let ghost ses = edges_view(existing_store.edges@);
    let ghost sa = existing_store.alias@;
    let parsed = match parse_document(topology_text) {
        Ok(p) => p,
        Err(e) => {
            return Err(e);
        },
    };
    let ghost pns = nodes_view(parsed.nodes@);
    let mut new_store = GraphStore::new();
    let mut merged: Vec<Node> = Vec::new();
    let mut ni: usize = 0;
    proof {
        assert(nodes_view(merged@) =~= Seq::<NodeView>::empty());
        assert(nodes_view(new_store.nodes@) =~= Seq::<NodeView>::empty());
        assert(new_store.alias@ =~= Seq::<(Seq<char>, Seq<char>)>::empty());
    }
    while ni < parsed.nodes.len()
        invariant
            0 <= ni <= parsed.nodes@.len(),
            pns == nodes_view(parsed.nodes@),
            pns.len() == d.topo_nodes.len(),
            forall|i: int| 0 <= i < pns.len() ==> resolved_parsed_node(d, i, #[trigger] pns[i]),
            merged@.len() == ni,
            forall|i: int|
                0 <= i < ni ==> resolved_uid_link(
                    sa,
                    d,
                    pns,
                    i,
                    (#[trigger] nodes_view(merged@)[i]).uid,
                ),
            forall|i: int|
                0 <= i < ni ==> merged_fields_ok(d, sns, i, #[trigger] nodes_view(merged@)[i]),
            (nodes_view(new_store.nodes@), new_store.alias@) == fold_upsert_nodes(
                nodes_view(merged@),
            ),
            store_wf(&new_store),
            new_store.edges@.len() == 0,
            new_store.version == 1,
        decreases parsed.nodes@.len() - ni,
    {
        let ghost mv0 = nodes_view(merged@);
        proof {
            assert(pns[ni as int] == parsed.nodes@[ni as int]@);
        }
        let uid = match existing_store.alias.get_uid(parsed.nodes[ni].mermaid_id.as_str()) {
            Some(u) => u,
            None => parsed.nodes[ni].uid.clone(),
        };
        proof {
            assert(resolved_parsed_node(d, ni as int, pns[ni as int]));
            assert(pns[ni as int].mermaid_id == d.topo_nodes[ni as int].0);
            assert(uid.0@ == (match alias_lookup(sa, d.topo_nodes[ni as int].0) {
                Some(au) => au,
                None => pns[ni as int].uid,
            }));
        }
        let mut node = match existing_store.node_pos(uid.0.as_str()) {
            Some(pos) => {
                proof {
                    crate::seqs::lemma_idx_of(sns, crate::store::node_uid_pred(uid.0@));
                    assert(sns[pos as int].uid == uid.0@);
                }
                let mut n = existing_store.nodes[pos].clone();
                proof {
                    assert(n@ == sns[pos as int]);
                }
                n.mermaid_id = parsed.nodes[ni].mermaid_id.clone();
                n.label = clone_opt_string(&parsed.nodes[ni].label);
                n.deleted = false;
                n
            },
            None => {
                let mut n = Node::with_uid(
                    UID::from_str(uid.0.as_str()),
                    parsed.nodes[ni].mermaid_id.as_str(),
                );
                n.label = clone_opt_string(&parsed.nodes[ni].label);
                n
            },
        };
        match parsed.nodes[ni].x {
            Some(xv) => {
                node.x = Some(xv);
            },
            None => {},
        }
        match parsed.nodes[ni].y {
            Some(yv) => {
                node.y = Some(yv);
            },
            None => {},
        }
        if !(matches!(parsed.nodes[ni].kind, NodeKind::Card)) {
            node.kind = parsed.nodes[ni].kind;
        }
        match &parsed.nodes[ni].meta {
            Some(m) => {
                node.meta = Some(m.clone());
            },
            None => {},
        }
        proof {
            assert(resolved_parsed_node(d, ni as int, pns[ni as int]));
            assert(resolved_uid_link(sa, d, pns, ni as int, node@.uid));
            assert(merged_fields_ok(d, sns, ni as int, node@));
            lemma_fold_upsert_nodes_push(mv0, node@);
        }
        merged.push(node.clone());
        new_store.upsert_node(node);
        proof {
            assert(nodes_view(merged@) =~= mv0.push(nodes_view(merged@).last()));
            assert(forall|i: int| 0 <= i < ni ==> nodes_view(merged@)[i] == mv0[i]);
        }
        ni = ni + 1;
    }
    let ghost mns = nodes_view(merged@);
    // edges
    let act = existing_store.active_edges();
    let mut medges: Vec<Edge> = Vec::new();
    let mut ej: usize = 0;
    proof {
        assert(edges_view(medges@) =~= Seq::<EdgeView>::empty());
        assert(edges_view(new_store.edges@) =~= Seq::<EdgeView>::empty());
    }
    while ej < parsed.edges.len()
        invariant
            0 <= ej <= parsed.edges@.len(),
            pns == nodes_view(parsed.nodes@),
            mns == nodes_view(merged@),
            merged@.len() == parsed.nodes@.len(),
            edges_view(parsed.edges@).len() == d.topo_edges.len(),
            forall|j: int|
                0 <= j < d.topo_edges.len() ==> resolved_parsed_edge(
                    d,
                    pns,
                    j,
                    #[trigger] edges_view(parsed.edges@)[j],
                ),
            edges_view(act@) == ses.filter(edge_active_pred()),
            medges@.len() == ej,
            forall|j: int|
                0 <= j < ej ==> reconciled_edge_ok(
                    d,
                    ses,
                    pns,
                    mns,
                    j,
                    #[trigger] edges_view(medges@)[j],
                ),
            (nodes_view(new_store.nodes@), new_store.alias@) == fold_upsert_nodes(mns),
            edges_view(new_store.edges@) == fold_upsert_edges(edges_view(medges@)),
            store_wf(&new_store),
            new_store.version == 1,
        decreases parsed.edges@.len() - ej,
    {
        let ghost ev0 = edges_view(medges@);
        proof {
            assert(edges_view(parsed.edges@)[ej as int] == parsed.edges@[ej as int]@);
            assert(resolved_parsed_edge(d, pns, ej as int, edges_view(parsed.edges@)[ej as int]));
        }
        proof {
            assert(merged@.len() == parsed.nodes@.len());
        }
        let source = continued_endpoint(&parsed.nodes, &merged, parsed.edges[ej].source.0.as_str());
        let target = continued_endpoint(&parsed.nodes, &merged, parsed.edges[ej].target.0.as_str());
        let eid = match find_active_match(&act, &source, &target) {
            Some(k) => {
                proof {
                    assert(edges_view(act@)[k as int].eid == act@[k as int].eid.0@);
                }
                act[k].eid.clone()
            },
            None => parsed.edges[ej].eid.clone(),
        };
        let mut edge = match existing_store.edge_pos(eid.0.as_str()) {
            Some(pos) => {
                proof {
                    crate::seqs::lemma_idx_of(ses, crate::store::edge_eid_pred(eid.0@));
                    assert(ses[pos as int].eid == eid.0@);
                }
                let mut e = existing_store.edges[pos].clone();
                proof {
                    assert(e@ == ses[pos as int]);
                }
                e.source = source;
                e.target = target;
                e.label = match &parsed.edges[ej].label {
                    Some(l) => Some(l.clone()),
                    None => clone_opt_string(&e.label),
                };
                e.deleted = false;
                e
            },
            None => Edge::with_eid(EID::from_str(eid.0.as_str()), source, target),
        };
        match &parsed.edges[ej].label {
            Some(l) => {
                edge.label = Some(l.clone());
            },
            None => {},
        }
        match &parsed.edges[ej].meta {
            Some(m) => {
                edge.meta = Some(m.clone());
            },
            None => {},
        }
        proof {
            assert(resolved_parsed_edge(d, pns, ej as int, edges_view(parsed.edges@)[ej as int]));
            assert(reconciled_edge_ok(d, ses, pns, mns, ej as int, edge@));
            lemma_fold_upsert_edges_push(ev0, edge@);
        }
        medges.push(edge.clone());
        new_store.upsert_edge(edge);
        proof {
            assert(edges_view(medges@) =~= ev0.push(edges_view(medges@).last()));
            assert(forall|j: int| 0 <= j < ej ==> edges_view(medges@)[j] == ev0[j]);
        }
        ej = ej + 1;
    }
    let ghost mes = edges_view(medges@);
    // orphaned nodes
    let old_active = existing_store.active_nodes();
    let mut orphaned_nodes: Vec<UID> = Vec::new();
    let mut oi: usize = 0;
    proof {
        assert(uids_view(orphaned_nodes@) =~= Seq::<Seq<char>>::empty());
    }
    while oi < old_active.len()
        invariant
            0 <= oi <= old_active@.len(),
            nodes_view(old_active@) == sns.filter(node_active_pred()),
            orphan_node_uids(nodes_view(old_active@), nodes_view(new_store.nodes@), 0, Seq::empty())
                == orphan_node_uids(
                nodes_view(old_active@),
                nodes_view(new_store.nodes@),
                oi as int,
                uids_view(orphaned_nodes@),
            ),
        decreases old_active@.len() - oi,
    {
        let ghost u0 = uids_view(orphaned_nodes@);
        match new_store.node_pos(old_active[oi].uid.0.as_str()) {
            Some(_k) => {},
            None => {
                orphaned_nodes.push(old_active[oi].uid.clone());
                proof {
                    assert(uids_view(orphaned_nodes@) =~= u0.push(
                        nodes_view(old_active@)[oi as int].uid,
                    ));
                }
            },
        }
        oi = oi + 1;
    }
    // the orphan warning
    let mut warnings = parsed.warnings;
    let ghost w0 = strs_view(warnings@);
    if orphaned_nodes.len() > 0 {
        let mut wv: Vec<char> = Vec::new();
        push_lit(&mut wv, "Orphaned nodes: [");
        let mut qi: usize = 0;
        proof {
            assert(wv@ =~= "Orphaned nodes: ["@ + Seq::<char>::empty());
        }
        while qi < orphaned_nodes.len()
            invariant
                0 <= qi <= orphaned_nodes@.len(),
                "Orphaned nodes: ["@ + quoted_join(uids_view(orphaned_nodes@), 0, Seq::empty())
                    == "Orphaned nodes: ["@ + quoted_join(
                    uids_view(orphaned_nodes@),
                    qi as int,
                    wv@.subrange("Orphaned nodes: ["@.len() as int, wv@.len() as int),
                ),
                wv@.subrange(0, "Orphaned nodes: ["@.len() as int) == "Orphaned nodes: ["@,
                wv@.len() >= "Orphaned nodes: ["@.len(),
            decreases orphaned_nodes@.len() - qi,
        {
            let ghost tail0 = wv@.subrange("Orphaned nodes: ["@.len() as int, wv@.len() as int);
            if qi > 0 {
                push_lit(&mut wv, ", ");
            }
            push_lit(&mut wv, "\"");
            let uv = chars_vec(orphaned_nodes[qi].0.as_str());
            push_all(&mut wv, &uv);
            push_lit(&mut wv, "\"");
            proof {
                reveal_strlit("\"");
                let sep: Seq<char> = if qi > 0 {
                    ", "@
                } else {
                    Seq::empty()
                };
                assert(wv@.subrange(0, "Orphaned nodes: ["@.len() as int) =~= "Orphaned nodes: ["@);
                assert(wv@.subrange("Orphaned nodes: ["@.len() as int, wv@.len() as int) =~= tail0
                    + sep + seq!['"'] + uids_view(orphaned_nodes@)[qi as int] + seq!['"']);
            }
            qi = qi + 1;
        }
        push_lit(&mut wv, "]");
        proof {
            reveal_strlit("]");
            assert(wv@ =~= orphan_warning(uids_view(orphaned_nodes@)));
        }
        warnings.push(string_from_chars(&wv));
        proof {
            assert(strs_view(warnings@) =~= w0.push(orphan_warning(uids_view(orphaned_nodes@))));
            assert(strs_view(warnings@) =~= w0 + seq![orphan_warning(uids_view(orphaned_nodes@))]);
        }
    } else {
        proof {
            assert(strs_view(warnings@) =~= w0 + Seq::<Seq<char>>::empty());
        }
    }
    // orphaned edges
    let old_active_edges = existing_store.active_edges();
    let mut orphaned_edges: Vec<EID> = Vec::new();
    let mut oe: usize = 0;
    proof {
        assert(eids_view(orphaned_edges@) =~= Seq::<Seq<char>>::empty());
    }
    while oe < old_active_edges.len()
        invariant
            0 <= oe <= old_active_edges@.len(),
            edges_view(old_active_edges@) == ses.filter(edge_active_pred()),
            orphan_edge_eids(
                edges_view(old_active_edges@),
                edges_view(new_store.edges@),
                0,
                Seq::empty(),
            ) == orphan_edge_eids(
                edges_view(old_active_edges@),
                edges_view(new_store.edges@),
                oe as int,
                eids_view(orphaned_edges@),
            ),
        decreases old_active_edges@.len() - oe,
    {
        let ghost e0 = eids_view(orphaned_edges@);
        match new_store.edge_pos(old_active_edges[oe].eid.0.as_str()) {
            Some(_k) => {},
            None => {
                orphaned_edges.push(old_active_edges[oe].eid.clone());
                proof {
                    assert(eids_view(orphaned_edges@) =~= e0.push(
                        edges_view(old_active_edges@)[oe as int].eid,
                    ));
                }
            },
        }
        oe = oe + 1;
    }
    let text = crate::writer::generate_mermaidman(&new_store, "TD");
    let result = ReconcileResult { text, store: new_store, warnings, orphaned_nodes, orphaned_edges };
    proof {
        assert(reconcile_rel(d, sns, ses, sa, pns, mns, mes, &result));
    }
    let out: Result<ReconcileResult, Error> = Ok(result);
    proof {
        assert(reconcile_rel(d, sns, ses, sa, pns, mns, mes, &out->Ok_0));
    }
    out
}

/// The views of a batch of position updates.
pub open spec fn upd_views(s: Seq<(UID, i64, i64)>) -> Seq<(Seq<char>, i64, i64)> {
    s.map(|i: int, u: (UID, i64, i64)| (u.0.0@, u.1, u.2))
}

/// The last update in the batch naming a UID, if any.
pub open spec fn last_update_for(upd: Seq<(Seq<char>, i64, i64)>, uid: Seq<char>) -> Option<
    (i64, i64),
>
    decreases upd.len(),
{
    if upd.len() == 0 {
        None
    } else if upd.last().0 == uid {
        Some((upd.last().1, upd.last().2))
    } else {
        last_update_for(upd.drop_last(), uid)
    }
}

/// Two tables carrying the same UIDs row for row are searched alike.
proof fn lemma_find_node_same_uids(a: Seq<NodeView>, b: Seq<NodeView>, u: Seq<char>)
    requires
        a.len() == b.len(),
        forall|i: int| 0 <= i < a.len() ==> (#[trigger] a[i]).uid == b[i].uid,
    ensures
        find_node_idx(a, u) == find_node_idx(b, u),
    decreases a.len(),
{
    if a.len() > 0 {
        assert(forall|i: int|
            0 <= i < a.drop_first().len() ==> (#[trigger] a.drop_first()[i]).uid
                == b.drop_first()[i].uid) by {
            assert(forall|i: int|
                0 <= i < a.drop_first().len() ==> a.drop_first()[i] == a[i + 1]
                    && b.drop_first()[i] == b[i + 1]);
        }
        lemma_find_node_same_uids(a.drop_first(), b.drop_first(), u);
    }
}

/// Apply a batch of position updates directly to a store, without
/// reparsing: the interactive hot path. Each row ends at the position of
/// the last update naming its UID; rows no update names are untouched.
#[verifier::loop_isolation(false)]
pub fn apply_ui_changes(store: &mut GraphStore, node_updates: &Vec<(UID, i64, i64)>)
    requires
        store_wf(old(store)),
    ensures
        store_wf(final(store)),
        final(store).edges@ == old(store).edges@,
        final(store).alias@ == old(store).alias@,
        final(store).version == old(store).version,
        nodes_view(final(store).nodes@).len() == nodes_view(old(store).nodes@).len(),
        (forall|i: int|
            0 <= i < nodes_view(old(store).nodes@).len() ==> (match last_update_for(
                upd_views(node_updates@),
                (#[trigger] nodes_view(old(store).nodes@)[i]).uid,
            ) {
                Some(xy) => crate::store::moved_node(
                    nodes_view(old(store).nodes@)[i],
                    nodes_view(final(store).nodes@)[i],
                    xy.0,
                    xy.1,
                ),
                None => nodes_view(final(store).nodes@)[i] == nodes_view(old(store).nodes@)[i],
            })),
{
    let ghost ns0 = nodes_view(old(store).nodes@);
    let ghost uv = upd_views(node_updates@);
    let mut k: usize = 0;
    while k < node_updates.len()
        invariant
            0 <= k <= node_updates@.len(),
            store_wf(store),
            store.edges@ == old(store).edges@,
            store.alias@ == old(store).alias@,
            store.version == old(store).version,
            nodes_view(store.nodes@).len() == ns0.len(),
            forall|i: int|
                0 <= i < ns0.len() ==> (#[trigger] nodes_view(store.nodes@)[i]).uid == ns0[i].uid,
            forall|i: int|
                0 <= i < ns0.len() ==> (match last_update_for(
                    uv.subrange(0, k as int),
                    (#[trigger] ns0[i]).uid,
                ) {
                    Some(xy) => crate::store::moved_node(
                        ns0[i],
                        nodes_view(store.nodes@)[i],
                        xy.0,
                        xy.1,
                    ),
                    None => nodes_view(store.nodes@)[i] == ns0[i],
                }),
        decreases node_updates@.len() - k,
    {
        let ghost cur = nodes_view(store.nodes@);
        let ghost pre = uv.subrange(0, k as int);
        let uid = node_updates[k].0.clone();
        proof {
            assert(uv[k as int] == (uid.0@, node_updates@[k as int].1, node_updates@[k as int].2));
            assert(pre.push(uv[k as int]) =~= uv.subrange(0, k as int + 1));
            lemma_find_node_same_uids(cur, ns0, uid.0@);
        }
        store.move_node(&uid, node_updates[k].1, node_updates[k].2);
        proof {
            lemma_idx_of(ns0, crate::store::node_uid_pred(uid.0@));
            assert forall|i: int|
                0 <= i < ns0.len() implies (match last_update_for(
                    uv.subrange(0, k as int + 1),
                    (#[trigger] ns0[i]).uid,
                ) {
                    Some(xy) => crate::store::moved_node(
                        ns0[i],
                        nodes_view(store.nodes@)[i],
                        xy.0,
                        xy.1,
                    ),
                    None => nodes_view(store.nodes@)[i] == ns0[i],
                }) by {
                let nw = nodes_view(store.nodes@);
                let xk = node_updates@[k as int].1;
                let yk = node_updates@[k as int].2;
                assert(uv.subrange(0, k as int + 1).drop_last() =~= pre);
                assert(uv.subrange(0, k as int + 1).last() == uv[k as int]);
                match find_node_idx(ns0, uid.0@) {
                    Some(fi) => {
                        if i == fi {
                            assert(ns0[i].uid == uid.0@);
                            assert(last_update_for(uv.subrange(0, k as int + 1), ns0[i].uid)
                                == Some((xk, yk)));
                            assert(crate::store::moved_node(cur[i], nw[i], xk, yk));
                            match last_update_for(pre, ns0[i].uid) {
                                Some(xy0) => {
                                    assert(crate::store::moved_node(ns0[i], cur[i], xy0.0, xy0.1));
                                    assert(nw[i] == NodeView {
                                        x: Some(xk),
                                        y: Some(yk),
                                        updated_at: nw[i].updated_at,
                                        ..ns0[i]
                                    });
                                },
                                None => {
                                    assert(cur[i] == ns0[i]);
                                },
                            }
                            assert(crate::store::moved_node(ns0[i], nw[i], xk, yk));
                        } else {
                            assert(ns0[i].uid != uid.0@);
                            assert(last_update_for(uv.subrange(0, k as int + 1), ns0[i].uid)
                                == last_update_for(pre, ns0[i].uid));
                            assert(nw[i] == cur[i]);
                        }
                    },
                    None => {
                        assert(ns0[i].uid != uid.0@);
                        assert(last_update_for(uv.subrange(0, k as int + 1), ns0[i].uid)
                            == last_update_for(pre, ns0[i].uid));
                        assert(nw[i] == cur[i]);
                    },
                }
            }
        }
        k = k + 1;
    }
    proof {
        assert(uv.subrange(0, uv.len() as int) =~= uv);
    }
}

} // verus!
