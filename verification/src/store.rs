//! The in-memory graph store: UID/EID-keyed entity tables in insertion
//! order, with a bidirectional alias between human-readable ids and UIDs.

use vstd::prelude::*;

use crate::seqs::{idx_of, lemma_filter_push, lemma_filter_sub, lemma_idx_of, lemma_idx_of_is};
use crate::text::str_eq;
use vstd::string::StringExecFns;
use crate::types::{Edge, EdgeView, Node, NodeView, UID};

verus! {

/// Bidirectional alias between mermaid ids and UIDs. At most one UID per
/// mermaid id and one mermaid id per UID, kept in lockstep by every
/// mutation.
#[derive(Debug)]
pub struct AliasMap {
    pub entries: Vec<(String, String)>,
}

/// The alias as a sequence of (mermaid id, uid) pairs.
pub open spec fn alias_view(entries: Seq<(String, String)>) -> Seq<(Seq<char>, Seq<char>)> {
    entries.map(|i: int, e: (String, String)| (e.0@, e.1@))
}

impl View for AliasMap {
    type V = Seq<(Seq<char>, Seq<char>)>;

    open spec fn view(&self) -> Seq<(Seq<char>, Seq<char>)> {
        alias_view(self.entries@)
    }
}

/// The entry predicate on a mermaid-id key.
pub open spec fn alias_key_pred(m: Seq<char>) -> spec_fn((Seq<char>, Seq<char>)) -> bool {
    |e: (Seq<char>, Seq<char>)| e.0 == m
}

/// The entry predicate on a UID.
pub open spec fn alias_uid_pred(u: Seq<char>) -> spec_fn((Seq<char>, Seq<char>)) -> bool {
    |e: (Seq<char>, Seq<char>)| e.1 == u
}

/// The entries that survive registering `(m, u)`.
pub open spec fn alias_keep_pred(m: Seq<char>, u: Seq<char>) -> spec_fn(
    (Seq<char>, Seq<char>),
) -> bool {
    |e: (Seq<char>, Seq<char>)| e.0 != m && e.1 != u
}

/// The entries that survive removing a UID.
pub open spec fn alias_not_uid_pred(u: Seq<char>) -> spec_fn((Seq<char>, Seq<char>)) -> bool {
    |e: (Seq<char>, Seq<char>)| e.1 != u
}

/// The node-row predicate on a UID.
pub open spec fn node_uid_pred(uid: Seq<char>) -> spec_fn(NodeView) -> bool {
    |n: NodeView| n.uid == uid
}

/// The rows that are not soft-deleted.
pub open spec fn node_active_pred() -> spec_fn(NodeView) -> bool {
    |n: NodeView| !n.deleted
}

/// The edges that are not soft-deleted.
pub open spec fn edge_active_pred() -> spec_fn(EdgeView) -> bool {
    |e: EdgeView| !e.deleted
}

/// The live edges incident to a node.
pub open spec fn edge_incident_pred(u: Seq<char>) -> spec_fn(EdgeView) -> bool {
    |e: EdgeView| !e.deleted && (e.source == u || e.target == u)
}

/// The live edges leaving a node.
pub open spec fn edge_from_pred(u: Seq<char>) -> spec_fn(EdgeView) -> bool {
    |e: EdgeView| !e.deleted && e.source == u
}

/// The live edges entering a node.
pub open spec fn edge_to_pred(u: Seq<char>) -> spec_fn(EdgeView) -> bool {
    |e: EdgeView| !e.deleted && e.target == u
}

/// The edge-row predicate on an EID.
pub open spec fn edge_eid_pred(eid: Seq<char>) -> spec_fn(EdgeView) -> bool {
    |e: EdgeView| e.eid == eid
}

/// Both columns of the alias are free of duplicates.
pub open spec fn alias_wf(a: Seq<(Seq<char>, Seq<char>)>) -> bool {
    forall|i: int, j: int|
        0 <= i < j < a.len() ==> #[trigger] a[i].0 != #[trigger] a[j].0 && a[i].1 != a[j].1
}

/// The UID aliased to a mermaid id.
pub open spec fn alias_lookup(a: Seq<(Seq<char>, Seq<char>)>, m: Seq<char>) -> Option<Seq<char>> {
    match idx_of(a, alias_key_pred(m)) {
        Some(i) => Some(a[i].1),
        None => None,
    }
}

/// The mermaid id aliased to a UID.
pub open spec fn alias_rev(a: Seq<(Seq<char>, Seq<char>)>, u: Seq<char>) -> Option<Seq<char>> {
    match idx_of(a, alias_uid_pred(u)) {
        Some(i) => Some(a[i].0),
        None => None,
    }
}

/// Registering an alias drops any entry on either key, then appends the
/// pair.
pub open spec fn alias_register_spec(
    a: Seq<(Seq<char>, Seq<char>)>,
    m: Seq<char>,
    u: Seq<char>,
) -> Seq<(Seq<char>, Seq<char>)> {
    a.filter(alias_keep_pred(m, u)).push((m, u))
}

/// Removing by UID drops the entry carrying it.
pub open spec fn alias_remove_uid_spec(
    a: Seq<(Seq<char>, Seq<char>)>,
    u: Seq<char>,
) -> Seq<(Seq<char>, Seq<char>)> {
    a.filter(alias_not_uid_pred(u))
}

/// A filtered alias keeps both columns duplicate-free.
pub proof fn lemma_alias_filter_wf(
    a: Seq<(Seq<char>, Seq<char>)>,
    p: spec_fn((Seq<char>, Seq<char>)) -> bool,
)
    requires
        alias_wf(a),
    ensures
        alias_wf(a.filter(p)),
    decreases a.len(),
{
    reveal(Seq::filter);
    if a.len() > 0 {
        let a0 = a.drop_last();
        assert forall|i: int, j: int|
            0 <= i < j < a0.len() implies #[trigger] a0[i].0 != #[trigger] a0[j].0 && a0[i].1
            != a0[j].1 by {
            assert(a0[i] == a[i] && a0[j] == a[j]);
        }
        lemma_alias_filter_wf(a0, p);
        lemma_filter_sub(a0, p);
        let f0 = a0.filter(p);
        if p(a.last()) {
            assert(a.filter(p) == f0.push(a.last()));
            assert forall|i: int, j: int|
                0 <= i < j < a.filter(p).len() implies #[trigger] a.filter(p)[i].0
                != #[trigger] a.filter(p)[j].0 && a.filter(p)[i].1 != a.filter(p)[j].1 by {
                if j < f0.len() {
                    assert(a.filter(p)[i] == f0[i] && a.filter(p)[j] == f0[j]);
                } else {
                    assert(a.filter(p)[j] == a.last());
                    assert(a.filter(p)[i] == f0[i]);
                    let k = choose|k: int| 0 <= k < a0.len() && a0[k] == f0[i];
                    assert(a[k] == f0[i]);
                    assert(a[k].0 != a[a.len() - 1].0 && a[k].1 != a[a.len() - 1].1);
                }
            }
        } else {
            assert(a.filter(p) == f0);
        }
    }
}

impl AliasMap {
    /// An empty alias.
    pub fn new() -> (r: Self)
        ensures
            r@ == Seq::<(Seq<char>, Seq<char>)>::empty(),
    {
        let r = AliasMap { entries: Vec::new() };
        proof {
            assert(r@ =~= Seq::<(Seq<char>, Seq<char>)>::empty());
        }
        r
    }

    /// Register a mapping, displacing whatever held either key.
    #[verifier::loop_isolation(false)]
    pub fn register(&mut self, mermaid_id: &str, uid: &UID)
        ensures
            final(self)@ == alias_register_spec(old(self)@, mermaid_id@, uid.0@),
    {
        let ghost a0 = self@;
        let ghost p = alias_keep_pred(mermaid_id@, uid.0@);
        let mut out: Vec<(String, String)> = Vec::new();
        let mut k: usize = 0;
        proof {
            reveal(Seq::filter);
            assert(alias_view(out@) =~= a0.subrange(0, 0).filter(p));
        }
        while k < self.entries.len()
            invariant
                0 <= k <= self.entries@.len(),
                alias_view(out@) == a0.subrange(0, k as int).filter(p),
            decreases self.entries@.len() - k,
        {
            let keep = !str_eq(self.entries[k].0.as_str(), mermaid_id) && !str_eq(
                self.entries[k].1.as_str(),
                uid.0.as_str(),
            );
            let ghost pre = a0.subrange(0, k as int);
            proof {
                assert(pre.push(a0[k as int]) =~= a0.subrange(0, k as int + 1));
                lemma_filter_push(pre, p, a0[k as int]);
            }
            if keep {
                let m = self.entries[k].0.clone();
                let u = self.entries[k].1.clone();
                out.push((m, u));
                proof {
                    assert(alias_view(out@) =~= alias_view(out@.drop_last()).push(
                        a0[k as int],
                    ));
                }
            }
            k = k + 1;
        }
        proof {
            assert(a0.subrange(0, a0.len() as int) =~= a0);
        }
        out.push((String::from_str(mermaid_id), uid.0.clone()));
        proof {
            assert(alias_view(out@) =~= a0.filter(p).push((mermaid_id@, uid.0@)));
        }
        self.entries = out;
    }

    /// The UID registered for a mermaid id.
    #[verifier::loop_isolation(false)]
    pub fn get_uid(&self, mermaid_id: &str) -> (r: Option<UID>)
        ensures
            match r {
                Some(u) => alias_lookup(self@, mermaid_id@) == Some(u.0@),
                None => alias_lookup(self@, mermaid_id@) is None,
            },
    {
        let ghost p = alias_key_pred(mermaid_id@);
        let mut k: usize = 0;
        loop
            invariant
                0 <= k <= self.entries@.len(),
                forall|j: int| 0 <= j < k ==> !p(self@[j]),
            decreases self.entries@.len() - k,
        {
            if k >= self.entries.len() {
                proof {
                    lemma_idx_of(self@, p);
                    if idx_of(self@, p) is Some {
                        assert(p(self@[idx_of(self@, p)->0]));
                        assert(false);
                    }
                }
                return None;
            }
            if str_eq(self.entries[k].0.as_str(), mermaid_id) {
                proof {
                    assert(p(self@[k as int]));
                    lemma_idx_of_is(self@, p, k as int);
                }
                return Some(UID::from_str(self.entries[k].1.as_str()));
            }
            proof {
                assert(self@[k as int].0 == self.entries@[k as int].0@);
            }
            k = k + 1;
        }
    }

    /// The mermaid id registered for a UID.
    #[verifier::loop_isolation(false)]
    pub fn get_mermaid_id(&self, uid: &UID) -> (r: Option<String>)
        ensures
            match r {
                Some(m) => alias_rev(self@, uid.0@) == Some(m@),
                None => alias_rev(self@, uid.0@) is None,
            },
    {
        let ghost p = alias_uid_pred(uid.0@);
        let mut k: usize = 0;
        loop
            invariant
                0 <= k <= self.entries@.len(),
                forall|j: int| 0 <= j < k ==> !p(self@[j]),
            decreases self.entries@.len() - k,
        {
            if k >= self.entries.len() {
                proof {
                    lemma_idx_of(self@, p);
                    if idx_of(self@, p) is Some {
                        assert(p(self@[idx_of(self@, p)->0]));
                        assert(false);
                    }
                }
                return None;
            }
            if str_eq(self.entries[k].1.as_str(), uid.0.as_str()) {
                proof {
                    assert(p(self@[k as int]));
                    lemma_idx_of_is(self@, p, k as int);
                }
                return Some(self.entries[k].0.clone());
            }
            proof {
                assert(self@[k as int].1 == self.entries@[k as int].1@);
            }
            k = k + 1;
        }
    }

    /// Drop the entry carrying a UID, if any.
    #[verifier::loop_isolation(false)]
    pub fn remove_by_uid(&mut self, uid: &UID)
        ensures
            final(self)@ == alias_remove_uid_spec(old(self)@, uid.0@),
    {
        let ghost a0 = self@;
        let ghost p = |e: (Seq<char>, Seq<char>)| e.1 != uid.0@;
        let mut out: Vec<(String, String)> = Vec::new();
        let mut k: usize = 0;
        proof {
            reveal(Seq::filter);
            assert(alias_view(out@) =~= a0.subrange(0, 0).filter(p));
        }
        while k < self.entries.len()
            invariant
                0 <= k <= self.entries@.len(),
                alias_view(out@) == a0.subrange(0, k as int).filter(p),
            decreases self.entries@.len() - k,
        {
            let keep = !str_eq(self.entries[k].1.as_str(), uid.0.as_str());
            let ghost pre = a0.subrange(0, k as int);
            proof {
                assert(pre.push(a0[k as int]) =~= a0.subrange(0, k as int + 1));
                lemma_filter_push(pre, p, a0[k as int]);
            }
            if keep {
                let m = self.entries[k].0.clone();
                let u = self.entries[k].1.clone();
                out.push((m, u));
                proof {
                    assert(alias_view(out@) =~= alias_view(out@.drop_last()).push(
                        a0[k as int],
                    ));
                }
            }
            k = k + 1;
        }
        proof {
            assert(a0.subrange(0, a0.len() as int) =~= a0);
        }
        self.entries = out;
    }

    /// Repoint the alias of a UID to a new mermaid id.
    pub fn rename(&mut self, uid: &UID, new_mermaid_id: &str)
        ensures
            final(self)@ == alias_register_spec(old(self)@, new_mermaid_id@, uid.0@),
    {
        self.register(new_mermaid_id, uid);
    }
}

// ---------------------------------------------------------------------------
// The store
// ---------------------------------------------------------------------------

pub open spec fn nodes_view(s: Seq<Node>) -> Seq<NodeView> {
    s.map(|i: int, n: Node| n@)
}

pub open spec fn edges_view(s: Seq<Edge>) -> Seq<EdgeView> {
    s.map(|i: int, e: Edge| e@)
}

/// Index of the node row carrying a UID.
pub open spec fn find_node_idx(ns: Seq<NodeView>, uid: Seq<char>) -> Option<int> {
    idx_of(ns, node_uid_pred(uid))
}

/// Index of the edge row carrying an EID.
pub open spec fn find_edge_idx(es: Seq<EdgeView>, eid: Seq<char>) -> Option<int> {
    idx_of(es, edge_eid_pred(eid))
}

/// Insert-or-replace a node row, keyed by UID.
pub open spec fn upsert_nodes_spec(ns: Seq<NodeView>, n: NodeView) -> Seq<NodeView> {
    match find_node_idx(ns, n.uid) {
        Some(i) => ns.update(i, n),
        None => ns.push(n),
    }
}

/// Insert-or-replace an edge row, keyed by EID.
pub open spec fn upsert_edges_spec(es: Seq<EdgeView>, e: EdgeView) -> Seq<EdgeView> {
    match find_edge_idx(es, e.eid) {
        Some(i) => es.update(i, e),
        None => es.push(e),
    }
}

/// The in-memory graph store. No operation ever removes a UID or EID row;
/// deletion is a flag, and deleted rows stay retrievable by direct lookup.
#[derive(Debug)]
pub struct GraphStore {
    pub nodes: Vec<Node>,
    pub edges: Vec<Edge>,
    pub alias: AliasMap,
    pub version: u32,
}

/// The node table carries no UID twice.
pub open spec fn nodes_unique(ns: Seq<NodeView>) -> bool {
    forall|i: int, j: int| 0 <= i < j < ns.len() ==> #[trigger] ns[i].uid != #[trigger] ns[j].uid
}

/// The edge table carries no EID twice.
pub open spec fn edges_unique(es: Seq<EdgeView>) -> bool {
    forall|i: int, j: int| 0 <= i < j < es.len() ==> #[trigger] es[i].eid != #[trigger] es[j].eid
}

/// Some node row carries this mermaid id and UID.
pub open spec fn names_a_row(ns: Seq<NodeView>, m: Seq<char>, u: Seq<char>) -> bool {
    exists|i: int| 0 <= i < ns.len() && #[trigger] ns[i].uid == u && ns[i].mermaid_id == m
}

/// Every alias entry names an existing node row.
pub open spec fn alias_nodes_consistent(
    ns: Seq<NodeView>,
    a: Seq<(Seq<char>, Seq<char>)>,
) -> bool {
    forall|k: int| 0 <= k < a.len() ==> names_a_row(ns, (#[trigger] a[k]).0, a[k].1)
}

/// Well-formedness: unique UIDs, unique EIDs, a duplicate-free alias, and
/// every alias entry naming an existing node row.
pub open spec fn store_wf(s: &GraphStore) -> bool {
    &&& nodes_unique(nodes_view(s.nodes@))
    &&& edges_unique(edges_view(s.edges@))
    &&& alias_wf(s.alias@)
    &&& alias_nodes_consistent(nodes_view(s.nodes@), s.alias@)
}

impl GraphStore {
    /// An empty store.
    pub fn new() -> (r: Self)
        ensures
            store_wf(&r),
            r.nodes@.len() == 0,
            r.edges@.len() == 0,
            r.alias@.len() == 0,
            r.version == 1,
    {
        let r = GraphStore { nodes: Vec::new(), edges: Vec::new(), alias: AliasMap::new(), version: 1 };
        r
    }

    /// Look a node up by UID; deleted rows are found too.
    #[verifier::loop_isolation(false)]
    pub fn get_node(&self, uid: &UID) -> (r: Option<&Node>)
        ensures
            match r {
                Some(n) => find_node_idx(nodes_view(self.nodes@), uid.0@) is Some && n@
                    == nodes_view(self.nodes@)[find_node_idx(nodes_view(self.nodes@), uid.0@)->0],
                None => find_node_idx(nodes_view(self.nodes@), uid.0@) is None,
            },
    {
        let ghost ns = nodes_view(self.nodes@);
        let ghost p = node_uid_pred(uid.0@);
        let mut k: usize = 0;
        loop
            invariant
                0 <= k <= self.nodes@.len(),
                forall|j: int| 0 <= j < k ==> !p(ns[j]),
            decreases self.nodes@.len() - k,
        {
            if k >= self.nodes.len() {
                proof {
                    lemma_idx_of(ns, p);
                    if idx_of(ns, p) is Some {
                        assert(p(ns[idx_of(ns, p)->0]));
                        assert(false);
                    }
                }
                return None;
            }
            if str_eq(self.nodes[k].uid.0.as_str(), uid.0.as_str()) {
                proof {
                    assert(p(ns[k as int]));
                    lemma_idx_of_is(ns, p, k as int);
                }
                return Some(&self.nodes[k]);
            }
            proof {
                assert(ns[k as int].uid == self.nodes@[k as int].uid.0@);
            }
            k = k + 1;
        }
    }

    /// Look a node up by its mermaid id, through the alias.
    pub fn get_node_by_mermaid_id(&self, mermaid_id: &str) -> (r: Option<&Node>)
        ensures
            match r {
                Some(n) => {
                    &&& alias_lookup(self.alias@, mermaid_id@) is Some
                    &&& find_node_idx(
                        nodes_view(self.nodes@),
                        alias_lookup(self.alias@, mermaid_id@)->0,
                    ) is Some
                    &&& n@ == nodes_view(self.nodes@)[find_node_idx(
                        nodes_view(self.nodes@),
                        alias_lookup(self.alias@, mermaid_id@)->0,
                    )->0]
                },
                None => alias_lookup(self.alias@, mermaid_id@) is None || find_node_idx(
                    nodes_view(self.nodes@),
                    alias_lookup(self.alias@, mermaid_id@)->0,
                ) is None,
            },
    {
        match self.alias.get_uid(mermaid_id) {
            Some(uid) => self.get_node(&uid),
            None => None,
        }
    }

    /// The position of the node row carrying a UID.
    #[verifier::loop_isolation(false)]
    pub(crate) fn node_pos(&self, uid: &str) -> (r: Option<usize>)
        ensures
            match r {
                Some(i) => find_node_idx(nodes_view(self.nodes@), uid@) == Some(i as int) && i
                    < self.nodes@.len(),
                None => find_node_idx(nodes_view(self.nodes@), uid@) is None,
            },
    {
        let ghost ns = nodes_view(self.nodes@);
        let ghost p = node_uid_pred(uid@);
        let mut k: usize = 0;
        loop
            invariant
                0 <= k <= self.nodes@.len(),
                forall|j: int| 0 <= j < k ==> !p(ns[j]),
            decreases self.nodes@.len() - k,
        {
            if k >= self.nodes.len() {
                proof {
                    lemma_idx_of(ns, p);
                    if idx_of(ns, p) is Some {
                        assert(p(ns[idx_of(ns, p)->0]));
                        assert(false);
                    }
                }
                return None;
            }
            if str_eq(self.nodes[k].uid.0.as_str(), uid) {
                proof {
                    assert(p(ns[k as int]));
                    lemma_idx_of_is(ns, p, k as int);
                }
                return Some(k);
            }
            proof {
                assert(ns[k as int].uid == self.nodes@[k as int].uid.0@);
            }
            k = k + 1;
        }
    }

    /// The position of the edge row carrying an EID.
    #[verifier::loop_isolation(false)]
    pub(crate) fn edge_pos(&self, eid: &str) -> (r: Option<usize>)
        ensures
            match r {
                Some(i) => find_edge_idx(edges_view(self.edges@), eid@) == Some(i as int) && i
                    < self.edges@.len(),
                None => find_edge_idx(edges_view(self.edges@), eid@) is None,
            },
    {
        let ghost es = edges_view(self.edges@);
        let ghost p = edge_eid_pred(eid@);
        let mut k: usize = 0;
        loop
            invariant
                0 <= k <= self.edges@.len(),
                forall|j: int| 0 <= j < k ==> !p(es[j]),
            decreases self.edges@.len() - k,
        {
            if k >= self.edges.len() {
                proof {
                    lemma_idx_of(es, p);
                    if idx_of(es, p) is Some {
                        assert(p(es[idx_of(es, p)->0]));
                        assert(false);
                    }
                }
                return None;
            }
            if str_eq(self.edges[k].eid.0.as_str(), eid) {
                proof {
                    assert(p(es[k as int]));
                    lemma_idx_of_is(es, p, k as int);
                }
                return Some(k);
            }
            proof {
                assert(es[k as int].eid == self.edges@[k as int].eid.0@);
            }
            k = k + 1;
        }
    }

    /// Insert or replace a node, keyed by its UID, and re-register its
    /// alias.
    pub fn upsert_node(&mut self, node: Node)
        requires
            store_wf(old(self)),
        ensures
            store_wf(final(self)),
            nodes_view(final(self).nodes@) == upsert_nodes_spec(
                nodes_view(old(self).nodes@),
                node@,
            ),
            final(self).alias@ == alias_register_spec(old(self).alias@, node@.mermaid_id, node@.uid),
            final(self).edges@ == old(self).edges@,
            final(self).version == old(self).version,
    {
        let ghost ns0 = nodes_view(self.nodes@);
        let ghost a0 = self.alias@;
        let ghost nv = node@;
        self.alias.register(node.mermaid_id.as_str(), &node.uid);
        let pos = self.node_pos(node.uid.0.as_str());
        match pos {
            Some(i) => {
                self.nodes.remove(i);
                self.nodes.insert(i, node);
                proof {
                    assert(nodes_view(self.nodes@) =~= ns0.update(i as int, nv));
                }
            },
            None => {
                self.nodes.push(node);
                proof {
                    assert(nodes_view(self.nodes@) =~= ns0.push(nv));
                }
            },
        }
        proof {
            lemma_upsert_preserves_wf(ns0, a0, nv, nodes_view(self.nodes@), self.alias@);
            assert(edges_view(self.edges@) =~= edges_view(old(self).edges@));
        }
    }

    /// Insert or replace an edge, keyed by its EID.
    pub fn upsert_edge(&mut self, edge: Edge)
        requires
            store_wf(old(self)),
        ensures
            store_wf(final(self)),
            edges_view(final(self).edges@) == upsert_edges_spec(
                edges_view(old(self).edges@),
                edge@,
            ),
            final(self).nodes@ == old(self).nodes@,
            final(self).alias@ == old(self).alias@,
            final(self).version == old(self).version,
    {
        let ghost es0 = edges_view(self.edges@);
        let ghost ev = edge@;
        let pos = self.edge_pos(edge.eid.0.as_str());
        match pos {
            Some(i) => {
                self.edges.remove(i);
                self.edges.insert(i, edge);
                proof {
                    assert(edges_view(self.edges@) =~= es0.update(i as int, ev));
                }
            },
            None => {
                proof {
                    lemma_idx_of(es0, edge_eid_pred(ev.eid));
                }
                self.edges.push(edge);
                proof {
                    assert(edges_view(self.edges@) =~= es0.push(ev));
                }
            },
        }
        proof {
            lemma_upsert_edges_unique(es0, ev, edges_view(self.edges@));
        }
    }
}

/// A view equal to the old one but for the moved position fields.
pub open spec fn moved_node(old_n: NodeView, new_n: NodeView, x: i64, y: i64) -> bool {
    new_n == NodeView { x: Some(x), y: Some(y), updated_at: new_n.updated_at, ..old_n }
        && new_n.updated_at is Some
}

/// A view equal to the old one but renamed.
pub open spec fn renamed_node(old_n: NodeView, new_n: NodeView, m: Seq<char>) -> bool {
    new_n == NodeView { mermaid_id: m, updated_at: new_n.updated_at, ..old_n }
        && new_n.updated_at is Some
}

/// A view equal to the old one but soft-deleted.
pub open spec fn deleted_node(old_n: NodeView, new_n: NodeView) -> bool {
    new_n == NodeView { deleted: true, updated_at: new_n.updated_at, ..old_n }
        && new_n.updated_at is Some
}

/// A view equal to the old one but soft-deleted.
pub open spec fn deleted_edge(old_e: EdgeView, new_e: EdgeView) -> bool {
    new_e == EdgeView { deleted: true, updated_at: new_e.updated_at, ..old_e }
        && new_e.updated_at is Some
}

/// Upserting keeps the store well formed.
pub proof fn lemma_upsert_preserves_wf(
    ns0: Seq<NodeView>,
    a0: Seq<(Seq<char>, Seq<char>)>,
    n: NodeView,
    ns1: Seq<NodeView>,
    a1: Seq<(Seq<char>, Seq<char>)>,
)
    requires
        nodes_unique(ns0),
        alias_wf(a0),
        alias_nodes_consistent(ns0, a0),
        ns1 == upsert_nodes_spec(ns0, n),
        a1 == alias_register_spec(a0, n.mermaid_id, n.uid),
    ensures
        nodes_unique(ns1),
        alias_wf(a1),
        alias_nodes_consistent(ns1, a1),
{
    let p = alias_keep_pred(n.mermaid_id, n.uid);
    let f = a0.filter(p);
    lemma_alias_filter_wf(a0, p);
    lemma_filter_sub(a0, p);
    lemma_idx_of(ns0, node_uid_pred(n.uid));
    // uniqueness of uids in the new table
    match find_node_idx(ns0, n.uid) {
        Some(i) => {
            assert(ns0[i].uid == n.uid);
            assert forall|x: int, y: int|
                0 <= x < y < ns1.len() implies #[trigger] ns1[x].uid != #[trigger] ns1[y].uid by {
                assert(ns1[x] == if x == i { n } else { ns0[x] });
                assert(ns1[y] == if y == i { n } else { ns0[y] });
            }
        },
        None => {
            assert forall|x: int, y: int|
                0 <= x < y < ns1.len() implies #[trigger] ns1[x].uid != #[trigger] ns1[y].uid by {
                if y == ns1.len() - 1 {
                    assert(!(ns0[x].uid == n.uid));
                }
            }
        },
    }
    // the fresh alias entry is distinct from every kept entry
    assert forall|x: int, y: int|
        0 <= x < y < a1.len() implies #[trigger] a1[x].0 != #[trigger] a1[y].0 && a1[x].1
        != a1[y].1 by {
        if y == a1.len() - 1 {
            Seq::lemma_filter_pred(a0, p, x);
            assert(a1[x] == f[x]);
        } else {
            assert(a1[x] == f[x] && a1[y] == f[y]);
        }
    }
    // every alias entry still names a row
    assert forall|k: int| 0 <= k < a1.len() implies names_a_row(
        ns1,
        (#[trigger] a1[k]).0,
        a1[k].1,
    ) by {
        if k == a1.len() - 1 {
            match find_node_idx(ns0, n.uid) {
                Some(i) => {
                    assert(ns1[i].uid == a1[k].1 && ns1[i].mermaid_id == a1[k].0);
                },
                None => {
                    let i = ns1.len() - 1;
                    assert(ns1[i].uid == a1[k].1 && ns1[i].mermaid_id == a1[k].0);
                },
            }
        } else {
            assert(a1[k] == f[k]);
            Seq::lemma_filter_pred(a0, p, k);
            let j = choose|j: int| 0 <= j < a0.len() && a0[j] == f[k];
            assert(names_a_row(ns0, a0[j].0, a0[j].1));
            let i0 = choose|i: int|
                0 <= i < ns0.len() && #[trigger] ns0[i].uid == a0[j].1 && ns0[i].mermaid_id
                    == a0[j].0;
            match find_node_idx(ns0, n.uid) {
                Some(i) => {
                    assert(ns0[i].uid == n.uid);
                    assert(i0 != i);
                    assert(ns1[i0] == ns0[i0]);
                    assert(ns1[i0].uid == a1[k].1 && ns1[i0].mermaid_id == a1[k].0);
                },
                None => {
                    assert(ns1[i0] == ns0[i0]);
                    assert(ns1[i0].uid == a1[k].1 && ns1[i0].mermaid_id == a1[k].0);
                },
            }
        }
    }
}

/// Upserting an edge keeps EIDs unique.
pub proof fn lemma_upsert_edges_unique(es0: Seq<EdgeView>, e: EdgeView, es1: Seq<EdgeView>)
    requires
        edges_unique(es0),
        es1 == upsert_edges_spec(es0, e),
    ensures
        edges_unique(es1),
{
    lemma_idx_of(es0, edge_eid_pred(e.eid));
    match find_edge_idx(es0, e.eid) {
        Some(i) => {
            assert(es0[i].eid == e.eid);
            assert forall|x: int, y: int|
                0 <= x < y < es1.len() implies #[trigger] es1[x].eid != #[trigger] es1[y].eid by {
                assert(es1[x] == if x == i { e } else { es0[x] });
                assert(es1[y] == if y == i { e } else { es0[y] });
            }
        },
        None => {
            assert forall|x: int, y: int|
                0 <= x < y < es1.len() implies #[trigger] es1[x].eid != #[trigger] es1[y].eid by {
                if y == es1.len() - 1 {
                    assert(!(es0[x].eid == e.eid));
                }
            }
        },
    }
}

/// The node table and alias after upserting each parsed node in order,
/// starting from nothing.
pub open spec fn fold_upsert_nodes(s: Seq<NodeView>) -> (
    Seq<NodeView>,
    Seq<(Seq<char>, Seq<char>)>,
)
    decreases s.len(),
{
    if s.len() == 0 {
        (Seq::empty(), Seq::empty())
    } else {
        let prev = fold_upsert_nodes(s.drop_last());
        (
            upsert_nodes_spec(prev.0, s.last()),
            alias_register_spec(prev.1, s.last().mermaid_id, s.last().uid),
        )
    }
}

/// The edge table after upserting each parsed edge in order.
pub open spec fn fold_upsert_edges(s: Seq<EdgeView>) -> Seq<EdgeView>
    decreases s.len(),
{
    if s.len() == 0 {
        Seq::empty()
    } else {
        upsert_edges_spec(fold_upsert_edges(s.drop_last()), s.last())
    }
}

pub proof fn lemma_fold_upsert_nodes_push(s: Seq<NodeView>, x: NodeView)
    ensures
        fold_upsert_nodes(s.push(x)) == (
            upsert_nodes_spec(fold_upsert_nodes(s).0, x),
            alias_register_spec(fold_upsert_nodes(s).1, x.mermaid_id, x.uid),
        ),
{
    assert(s.push(x).drop_last() =~= s);
    assert(s.push(x).last() == x);
}

/// An alias pair no later parsed node displaces survives the whole fold.
pub proof fn lemma_fold_alias_contains(s: Seq<NodeView>, i: int)
    requires
        0 <= i < s.len(),
        forall|j: int|
            i < j < s.len() ==> (#[trigger] s[j]).mermaid_id != s[i].mermaid_id && s[j].uid
                != s[i].uid,
    ensures
        exists|k: int|
            0 <= k < fold_upsert_nodes(s).1.len() && #[trigger] fold_upsert_nodes(s).1[k] == (
            s[i].mermaid_id,
            s[i].uid,
            ),
    decreases s.len(),
{
    let prev = fold_upsert_nodes(s.drop_last());
    let cur = fold_upsert_nodes(s);
    if i == s.len() - 1 {
        assert(cur.1[cur.1.len() - 1] == (s[i].mermaid_id, s[i].uid));
    } else {
        assert(forall|j: int|
            i < j < s.drop_last().len() ==> #[trigger] s.drop_last()[j] == s[j]);
        assert(s.drop_last()[i] == s[i]);
        lemma_fold_alias_contains(s.drop_last(), i);
        let k = choose|k: int|
            0 <= k < prev.1.len() && #[trigger] prev.1[k] == (s[i].mermaid_id, s[i].uid);
        let p = alias_keep_pred(s.last().mermaid_id, s.last().uid);
        assert(p(prev.1[k]));
        Seq::lemma_filter_contains(prev.1, p, k);
        assert(prev.1.filter(p).contains(prev.1[k]));
        let k2 = choose|k2: int|
            0 <= k2 < prev.1.filter(p).len() && prev.1.filter(p)[k2] == prev.1[k];
        assert(cur.1[k2] == prev.1[k]);
    }
}

pub proof fn lemma_fold_upsert_edges_push(s: Seq<EdgeView>, x: EdgeView)
    ensures
        fold_upsert_edges(s.push(x)) == upsert_edges_spec(fold_upsert_edges(s), x),
{
    assert(s.push(x).drop_last() =~= s);
    assert(s.push(x).last() == x);
}

impl GraphStore {
    /// Build a store from parsed nodes and edges, upserting each in order.
    #[verifier::loop_isolation(false)]
    pub fn from_parsed(nodes: Vec<Node>, edges: Vec<Edge>) -> (r: GraphStore)
        ensures
            store_wf(&r),
            (nodes_view(r.nodes@), r.alias@) == fold_upsert_nodes(nodes_view(nodes@)),
            edges_view(r.edges@) == fold_upsert_edges(edges_view(edges@)),
            r.version == 1,
    {
        let mut store = GraphStore::new();
        let ghost nsv = nodes_view(nodes@);
        let ghost esv = edges_view(edges@);
        let mut k: usize = 0;
        proof {
            assert(nsv.subrange(0, 0) =~= Seq::<NodeView>::empty());
            assert(nodes_view(store.nodes@) =~= Seq::<NodeView>::empty());
            assert(store.alias@ =~= Seq::<(Seq<char>, Seq<char>)>::empty());
        }
        let nodes_in = nodes;
        let mut ni: usize = 0;
        while ni < nodes_in.len()
            invariant
                0 <= ni <= nodes_in@.len(),
                store_wf(&store),
                nodes_in@ == nodes@,
                (nodes_view(store.nodes@), store.alias@) == fold_upsert_nodes(
                    nsv.subrange(0, ni as int),
                ),
                store.edges@.len() == 0,
                store.version == 1,
            decreases nodes_in@.len() - ni,
        {
            let n = nodes_in[ni].clone();
            proof {
                assert(n@ == nsv[ni as int]);
                lemma_fold_upsert_nodes_push(nsv.subrange(0, ni as int), nsv[ni as int]);
                assert(nsv.subrange(0, ni as int).push(nsv[ni as int]) =~= nsv.subrange(
                    0,
                    ni as int + 1,
                ));
            }
            store.upsert_node(n);
            ni = ni + 1;
        }
        proof {
            assert(nsv.subrange(0, nsv.len() as int) =~= nsv);
            assert(esv.subrange(0, 0) =~= Seq::<EdgeView>::empty());
            assert(edges_view(store.edges@) =~= Seq::<EdgeView>::empty());
        }
        let edges_in = edges;
        let mut ei: usize = 0;
        while ei < edges_in.len()
            invariant
                0 <= ei <= edges_in@.len(),
                store_wf(&store),
                edges_in@ == edges@,
                (nodes_view(store.nodes@), store.alias@) == fold_upsert_nodes(nsv),
                edges_view(store.edges@) == fold_upsert_edges(esv.subrange(0, ei as int)),
                store.version == 1,
            decreases edges_in@.len() - ei,
        {
            let e = edges_in[ei].clone();
            proof {
                assert(e@ == esv[ei as int]);
                lemma_fold_upsert_edges_push(esv.subrange(0, ei as int), esv[ei as int]);
                assert(esv.subrange(0, ei as int).push(esv[ei as int]) =~= esv.subrange(
                    0,
                    ei as int + 1,
                ));
            }
            store.upsert_edge(e);
            ei = ei + 1;
        }
        proof {
            assert(esv.subrange(0, esv.len() as int) =~= esv);
        }
        store
    }

    /// Look an edge up by EID; deleted rows are found too.
    #[verifier::loop_isolation(false)]
    pub fn get_edge(&self, eid: &crate::types::EID) -> (r: Option<&Edge>)
        ensures
            match r {
                Some(e) => find_edge_idx(edges_view(self.edges@), eid.0@) is Some && e@
                    == edges_view(self.edges@)[find_edge_idx(edges_view(self.edges@), eid.0@)->0],
                None => find_edge_idx(edges_view(self.edges@), eid.0@) is None,
            },
    {
        let ghost es = edges_view(self.edges@);
        let ghost p = edge_eid_pred(eid.0@);
        let mut k: usize = 0;
        loop
            invariant
                0 <= k <= self.edges@.len(),
                forall|j: int| 0 <= j < k ==> !p(es[j]),
            decreases self.edges@.len() - k,
        {
            if k >= self.edges.len() {
                proof {
                    lemma_idx_of(es, p);
                    if idx_of(es, p) is Some {
                        assert(p(es[idx_of(es, p)->0]));
                        assert(false);
                    }
                }
                return None;
            }
            if str_eq(self.edges[k].eid.0.as_str(), eid.0.as_str()) {
                proof {
                    assert(p(es[k as int]));
                    lemma_idx_of_is(es, p, k as int);
                }
                return Some(&self.edges[k]);
            }
            proof {
                assert(es[k as int].eid == self.edges@[k as int].eid.0@);
            }
            k = k + 1;
        }
    }

    /// Move a node to new coordinates; a no-op when the UID is absent.
    pub fn move_node(&mut self, uid: &UID, x: i64, y: i64)
        requires
            store_wf(old(self)),
        ensures
            store_wf(final(self)),
            final(self).edges@ == old(self).edges@,
            final(self).alias@ == old(self).alias@,
            final(self).version == old(self).version,
            (match find_node_idx(nodes_view(old(self).nodes@), uid.0@) {
                Some(i) => {
                    &&& nodes_view(final(self).nodes@).len() == nodes_view(
                        old(self).nodes@,
                    ).len()
                    &&& moved_node(
                        nodes_view(old(self).nodes@)[i],
                        nodes_view(final(self).nodes@)[i],
                        x,
                        y,
                    )
                    &&& (forall|j: int|
                        0 <= j < nodes_view(old(self).nodes@).len() && j != i
                            ==> #[trigger] nodes_view(final(self).nodes@)[j] == nodes_view(
                            old(self).nodes@,
                        )[j])
                },
                None => final(self).nodes@ == old(self).nodes@,
            }),
    {
        let ghost ns0 = nodes_view(self.nodes@);
        match self.node_pos(uid.0.as_str()) {
            Some(i) => {
                let mut n = self.nodes.remove(i);
                n.x = Some(x);
                n.y = Some(y);
                n.updated_at = Some(crate::types::now_millis());
                proof {
                    assert(n@.uid == ns0[i as int].uid);
                    assert(n@.mermaid_id == ns0[i as int].mermaid_id);
                }
                self.nodes.insert(i, n);
                proof {
                    assert(nodes_view(self.nodes@) =~= ns0.update(
                        i as int,
                        nodes_view(self.nodes@)[i as int],
                    ));
                    lemma_same_key_update_wf(
                        ns0,
                        self.alias@,
                        i as int,
                        nodes_view(self.nodes@)[i as int],
                    );
                }
            },
            None => {},
        }
    }

    /// Repoint a node's mermaid id; its UID never changes. A no-op when
    /// the UID is absent.
    pub fn rename_node(&mut self, uid: &UID, new_mermaid_id: &str)
        requires
            store_wf(old(self)),
        ensures
            store_wf(final(self)),
            final(self).edges@ == old(self).edges@,
            final(self).version == old(self).version,
            (match find_node_idx(nodes_view(old(self).nodes@), uid.0@) {
                Some(i) => {
                    &&& final(self).alias@ == alias_register_spec(
                        old(self).alias@,
                        new_mermaid_id@,
                        uid.0@,
                    )
                    &&& nodes_view(final(self).nodes@).len() == nodes_view(
                        old(self).nodes@,
                    ).len()
                    &&& renamed_node(
                        nodes_view(old(self).nodes@)[i],
                        nodes_view(final(self).nodes@)[i],
                        new_mermaid_id@,
                    )
                    &&& (forall|j: int|
                        0 <= j < nodes_view(old(self).nodes@).len() && j != i
                            ==> #[trigger] nodes_view(final(self).nodes@)[j] == nodes_view(
                            old(self).nodes@,
                        )[j])
                },
                None => final(self).nodes@ == old(self).nodes@ && final(self).alias@ == old(
                    self,
                ).alias@,
            }),
    {
        let ghost ns0 = nodes_view(self.nodes@);
        let ghost a0 = self.alias@;
        match self.node_pos(uid.0.as_str()) {
            Some(i) => {
                self.alias.rename(uid, new_mermaid_id);
                let mut n = self.nodes.remove(i);
                n.mermaid_id = crate::text::string_from_chars(&crate::text::chars_vec(
                    new_mermaid_id,
                ));
                n.updated_at = Some(crate::types::now_millis());
                proof {
                    assert(n@.uid == ns0[i as int].uid);
                }
                self.nodes.insert(i, n);
                proof {
                    let nv = nodes_view(self.nodes@)[i as int];
                    assert(nodes_view(self.nodes@) =~= ns0.update(i as int, nv));
                    lemma_idx_of(ns0, node_uid_pred(uid.0@));
                    assert(ns0[i as int].uid == uid.0@);
                    assert(nv.uid == uid.0@);
                    assert(nv.mermaid_id == new_mermaid_id@);
                    let pp = node_uid_pred(nv.uid);
                    assert forall|j: int| 0 <= j < i implies !pp(ns0[j]) by {
                        assert(ns0[j].uid != ns0[i as int].uid);
                    }
                    assert(pp(ns0[i as int]));
                    lemma_idx_of_is(ns0, pp, i as int);
                    assert(upsert_nodes_spec(ns0, nv) == ns0.update(i as int, nv));
                    lemma_upsert_preserves_wf(ns0, a0, nv, nodes_view(self.nodes@), self.alias@);
                }
            },
            None => {},
        }
    }

    /// Soft-delete a node: set its flag and drop its alias; the row stays.
    pub fn delete_node(&mut self, uid: &UID)
        requires
            store_wf(old(self)),
        ensures
            store_wf(final(self)),
            final(self).edges@ == old(self).edges@,
            final(self).version == old(self).version,
            final(self).alias@ == alias_remove_uid_spec(old(self).alias@, uid.0@),
            (match find_node_idx(nodes_view(old(self).nodes@), uid.0@) {
                Some(i) => {
                    &&& nodes_view(final(self).nodes@).len() == nodes_view(
                        old(self).nodes@,
                    ).len()
                    &&& deleted_node(
                        nodes_view(old(self).nodes@)[i],
                        nodes_view(final(self).nodes@)[i],
                    )
                    &&& (forall|j: int|
                        0 <= j < nodes_view(old(self).nodes@).len() && j != i
                            ==> #[trigger] nodes_view(final(self).nodes@)[j] == nodes_view(
                            old(self).nodes@,
                        )[j])
                },
                None => final(self).nodes@ == old(self).nodes@,
            }),
    {
        let ghost ns0 = nodes_view(self.nodes@);
        let ghost a0 = self.alias@;
        match self.node_pos(uid.0.as_str()) {
            Some(i) => {
                let mut n = self.nodes.remove(i);
                n.deleted = true;
                n.updated_at = Some(crate::types::now_millis());
                proof {
                    assert(n@.uid == ns0[i as int].uid);
                    assert(n@.mermaid_id == ns0[i as int].mermaid_id);
                }
                self.nodes.insert(i, n);
                proof {
                    assert(nodes_view(self.nodes@) =~= ns0.update(
                        i as int,
                        nodes_view(self.nodes@)[i as int],
                    ));
                }
            },
            None => {},
        }
        self.alias.remove_by_uid(uid);
        proof {
            let p = alias_not_uid_pred(uid.0@);
            lemma_alias_filter_wf(a0, p);
            lemma_filter_sub(a0, p);
            let ns1 = nodes_view(self.nodes@);
            match find_node_idx(ns0, uid.0@) {
                Some(i) => {
                    lemma_same_key_update_unique(ns0, i, ns1[i]);
                    assert forall|k: int| 0 <= k < self.alias@.len() implies names_a_row(
                        ns1,
                        (#[trigger] self.alias@[k]).0,
                        self.alias@[k].1,
                    ) by {
                        assert(self.alias@[k] == a0.filter(p)[k]);
                        Seq::lemma_filter_pred(a0, p, k);
                        let j = choose|j: int| 0 <= j < a0.len() && a0[j] == a0.filter(p)[k];
                        assert(names_a_row(ns0, a0[j].0, a0[j].1));
                        let i0 = choose|i0: int|
                            0 <= i0 < ns0.len() && #[trigger] ns0[i0].uid == a0[j].1
                                && ns0[i0].mermaid_id == a0[j].0;
                        assert(ns1[i0].uid == self.alias@[k].1 && ns1[i0].mermaid_id
                            == self.alias@[k].0);
                    }
                },
                None => {
                    assert(ns1 == ns0);
                    assert forall|k: int| 0 <= k < self.alias@.len() implies names_a_row(
                        ns1,
                        (#[trigger] self.alias@[k]).0,
                        self.alias@[k].1,
                    ) by {
                        assert(self.alias@[k] == a0.filter(p)[k]);
                        let j = choose|j: int| 0 <= j < a0.len() && a0[j] == a0.filter(p)[k];
                        assert(names_a_row(ns0, a0[j].0, a0[j].1));
                    }
                },
            }
        }
    }

    /// Soft-delete an edge; the row stays.
    pub fn delete_edge(&mut self, eid: &crate::types::EID)
        requires
            store_wf(old(self)),
        ensures
            store_wf(final(self)),
            final(self).nodes@ == old(self).nodes@,
            final(self).alias@ == old(self).alias@,
            final(self).version == old(self).version,
            (match find_edge_idx(edges_view(old(self).edges@), eid.0@) {
                Some(i) => {
                    &&& edges_view(final(self).edges@).len() == edges_view(
                        old(self).edges@,
                    ).len()
                    &&& deleted_edge(
                        edges_view(old(self).edges@)[i],
                        edges_view(final(self).edges@)[i],
                    )
                    &&& (forall|j: int|
                        0 <= j < edges_view(old(self).edges@).len() && j != i
                            ==> #[trigger] edges_view(final(self).edges@)[j] == edges_view(
                            old(self).edges@,
                        )[j])
                },
                None => final(self).edges@ == old(self).edges@,
            }),
    {
        let ghost es0 = edges_view(self.edges@);
        match self.edge_pos(eid.0.as_str()) {
            Some(i) => {
                let mut e = self.edges.remove(i);
                e.deleted = true;
                e.updated_at = Some(crate::types::now_millis());
                proof {
                    assert(e@.eid == es0[i as int].eid);
                }
                self.edges.insert(i, e);
                proof {
                    let ev = edges_view(self.edges@)[i as int];
                    assert(edges_view(self.edges@) =~= es0.update(i as int, ev));
                    assert forall|x: int, y: int|
                        0 <= x < y < es0.len() implies #[trigger] edges_view(
                        self.edges@,
                    )[x].eid != #[trigger] edges_view(self.edges@)[y].eid by {
                        assert(edges_view(self.edges@)[x] == if x == i as int {
                            ev
                        } else {
                            es0[x]
                        });
                        assert(edges_view(self.edges@)[y] == if y == i as int {
                            ev
                        } else {
                            es0[y]
                        });
                    }
                }
            },
            None => {},
        }
    }

    /// All nodes not soft-deleted, in store order.
    #[verifier::loop_isolation(false)]
    pub fn active_nodes(&self) -> (r: Vec<Node>)
        ensures
            nodes_view(r@) == nodes_view(self.nodes@).filter(node_active_pred()),
    {
        let ghost ns = nodes_view(self.nodes@);
        let ghost p = node_active_pred();
        let mut out: Vec<Node> = Vec::new();
        let mut k: usize = 0;
        proof {
            reveal(Seq::filter);
            assert(nodes_view(out@) =~= ns.subrange(0, 0).filter(p));
        }
        while k < self.nodes.len()
            invariant
                0 <= k <= self.nodes@.len(),
                nodes_view(out@) == ns.subrange(0, k as int).filter(p),
            decreases self.nodes@.len() - k,
        {
            let ghost pre = ns.subrange(0, k as int);
            proof {
                assert(pre.push(ns[k as int]) =~= ns.subrange(0, k as int + 1));
                lemma_filter_push(pre, p, ns[k as int]);
            }
            if !self.nodes[k].deleted {
                out.push(self.nodes[k].clone());
                proof {
                    assert(nodes_view(out@) =~= nodes_view(out@.drop_last()).push(
                        ns[k as int],
                    ));
                }
            }
            k = k + 1;
        }
        proof {
            assert(ns.subrange(0, ns.len() as int) =~= ns);
        }
        out
    }

    /// All edges not soft-deleted, in store order.
    #[verifier::loop_isolation(false)]
    pub fn active_edges(&self) -> (r: Vec<Edge>)
        ensures
            edges_view(r@) == edges_view(self.edges@).filter(edge_active_pred()),
    {
        let ghost es = edges_view(self.edges@);
        let ghost p = edge_active_pred();
        let mut out: Vec<Edge> = Vec::new();
        let mut k: usize = 0;
        proof {
            reveal(Seq::filter);
            assert(edges_view(out@) =~= es.subrange(0, 0).filter(p));
        }
        while k < self.edges.len()
            invariant
                0 <= k <= self.edges@.len(),
                edges_view(out@) == es.subrange(0, k as int).filter(p),
            decreases self.edges@.len() - k,
        {
            let ghost pre = es.subrange(0, k as int);
            proof {
                assert(pre.push(es[k as int]) =~= es.subrange(0, k as int + 1));
                lemma_filter_push(pre, p, es[k as int]);
            }
            if !self.edges[k].deleted {
                out.push(self.edges[k].clone());
                proof {
                    assert(edges_view(out@) =~= edges_view(out@.drop_last()).push(
                        es[k as int],
                    ));
                }
            }
            k = k + 1;
        }
        proof {
            assert(es.subrange(0, es.len() as int) =~= es);
        }
        out
    }

    /// Live edges incident to a node, as source or target.
    #[verifier::loop_isolation(false)]
    pub fn edges_for_node(&self, uid: &UID) -> (r: Vec<Edge>)
        ensures
            edges_view(r@) == edges_view(self.edges@).filter(edge_incident_pred(uid.0@)),
    {
        let ghost es = edges_view(self.edges@);
        let ghost p = edge_incident_pred(uid.0@);
        let mut out: Vec<Edge> = Vec::new();
        let mut k: usize = 0;
        proof {
            reveal(Seq::filter);
            assert(edges_view(out@) =~= es.subrange(0, 0).filter(p));
        }
        while k < self.edges.len()
            invariant
                0 <= k <= self.edges@.len(),
                edges_view(out@) == es.subrange(0, k as int).filter(p),
            decreases self.edges@.len() - k,
        {
            let ghost pre = es.subrange(0, k as int);
            proof {
                assert(pre.push(es[k as int]) =~= es.subrange(0, k as int + 1));
                lemma_filter_push(pre, p, es[k as int]);
            }
            let hit = !self.edges[k].deleted && (str_eq(
                self.edges[k].source.0.as_str(),
                uid.0.as_str(),
            ) || str_eq(self.edges[k].target.0.as_str(), uid.0.as_str()));
            if hit {
                out.push(self.edges[k].clone());
                proof {
                    assert(edges_view(out@) =~= edges_view(out@.drop_last()).push(
                        es[k as int],
                    ));
                }
            }
            k = k + 1;
        }
        proof {
            assert(es.subrange(0, es.len() as int) =~= es);
        }
        out
    }

    /// Live edges leaving a node.
    #[verifier::loop_isolation(false)]
    pub fn outgoing_edges(&self, uid: &UID) -> (r: Vec<Edge>)
        ensures
            edges_view(r@) == edges_view(self.edges@).filter(edge_from_pred(uid.0@)),
    {
        let ghost es = edges_view(self.edges@);
        let ghost p = edge_from_pred(uid.0@);
        let mut out: Vec<Edge> = Vec::new();
        let mut k: usize = 0;
        proof {
            reveal(Seq::filter);
            assert(edges_view(out@) =~= es.subrange(0, 0).filter(p));
        }
        while k < self.edges.len()
            invariant
                0 <= k <= self.edges@.len(),
                edges_view(out@) == es.subrange(0, k as int).filter(p),
            decreases self.edges@.len() - k,
        {
            let ghost pre = es.subrange(0, k as int);
            proof {
                assert(pre.push(es[k as int]) =~= es.subrange(0, k as int + 1));
                lemma_filter_push(pre, p, es[k as int]);
            }
            if !self.edges[k].deleted && str_eq(self.edges[k].source.0.as_str(), uid.0.as_str()) {
                out.push(self.edges[k].clone());
                proof {
                    assert(edges_view(out@) =~= edges_view(out@.drop_last()).push(
                        es[k as int],
                    ));
                }
            }
            k = k + 1;
        }
        proof {
            assert(es.subrange(0, es.len() as int) =~= es);
        }
        out
    }

    /// Live edges entering a node.
    #[verifier::loop_isolation(false)]
    pub fn incoming_edges(&self, uid: &UID) -> (r: Vec<Edge>)
        ensures
            edges_view(r@) == edges_view(self.edges@).filter(edge_to_pred(uid.0@)),
    {
        let ghost es = edges_view(self.edges@);
        let ghost p = edge_to_pred(uid.0@);
        let mut out: Vec<Edge> = Vec::new();
        let mut k: usize = 0;
        proof {
            reveal(Seq::filter);
            assert(edges_view(out@) =~= es.subrange(0, 0).filter(p));
        }
        while k < self.edges.len()
            invariant
                0 <= k <= self.edges@.len(),
                edges_view(out@) == es.subrange(0, k as int).filter(p),
            decreases self.edges@.len() - k,
        {
            let ghost pre = es.subrange(0, k as int);
            proof {
                assert(pre.push(es[k as int]) =~= es.subrange(0, k as int + 1));
                lemma_filter_push(pre, p, es[k as int]);
            }
            if !self.edges[k].deleted && str_eq(self.edges[k].target.0.as_str(), uid.0.as_str()) {
                out.push(self.edges[k].clone());
                proof {
                    assert(edges_view(out@) =~= edges_view(out@.drop_last()).push(
                        es[k as int],
                    ));
                }
            }
            k = k + 1;
        }
        proof {
            assert(es.subrange(0, es.len() as int) =~= es);
        }
        out
    }
}

/// Updating a row without changing its UID or mermaid id keeps the store
/// well formed.
pub proof fn lemma_same_key_update_wf(
    ns0: Seq<NodeView>,
    a: Seq<(Seq<char>, Seq<char>)>,
    i: int,
    n1: NodeView,
)
    requires
        nodes_unique(ns0),
        alias_nodes_consistent(ns0, a),
        0 <= i < ns0.len(),
        n1.uid == ns0[i].uid,
        n1.mermaid_id == ns0[i].mermaid_id,
    ensures
        nodes_unique(ns0.update(i, n1)),
        alias_nodes_consistent(ns0.update(i, n1), a),
{
    let ns1 = ns0.update(i, n1);
    lemma_same_key_update_unique(ns0, i, n1);
    assert forall|k: int| 0 <= k < a.len() implies names_a_row(
        ns1,
        (#[trigger] a[k]).0,
        a[k].1,
    ) by {
        assert(names_a_row(ns0, a[k].0, a[k].1));
        let i0 = choose|i0: int|
            0 <= i0 < ns0.len() && #[trigger] ns0[i0].uid == a[k].1 && ns0[i0].mermaid_id
                == a[k].0;
        assert(ns1[i0].uid == a[k].1 && ns1[i0].mermaid_id == a[k].0);
    }
}

/// Updating a row without changing its UID keeps UIDs unique.
pub proof fn lemma_same_key_update_unique(ns0: Seq<NodeView>, i: int, n1: NodeView)
    requires
        nodes_unique(ns0),
        0 <= i < ns0.len(),
        n1.uid == ns0[i].uid,
    ensures
        nodes_unique(ns0.update(i, n1)),
{
    let ns1 = ns0.update(i, n1);
    assert forall|x: int, y: int|
        0 <= x < y < ns1.len() implies #[trigger] ns1[x].uid != #[trigger] ns1[y].uid by {
        assert(ns1[x] == if x == i { n1 } else { ns0[x] });
        assert(ns1[y] == if y == i { n1 } else { ns0[y] });
    }
}

} // verus!
