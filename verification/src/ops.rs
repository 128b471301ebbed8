//! Event-sourced operations and the bounded undo/redo log.
//!
//! The log records caller-issued mutations; applying or reversing an
//! operation's effect on the store is the caller's responsibility. `push`
//! clears the redo stack and evicts the oldest entry once the configured
//! bound is exceeded; `pop_undo` moves the top undo entry to redo and
//! returns it; `pop_redo` is the mirror.

use vstd::prelude::*;

use crate::json::JsonObject;
use crate::types::{now_millis, Edge, EdgeView, Node, NodeView, UID};

verus! {

/// Operation kinds.
#[derive(Debug, Clone, Copy, PartialEq, Eq, Structural)]
pub enum OpKind {
    NodeCreate,
    NodeUpdate,
    NodeMove,
    NodeDelete,
    EdgeCreate,
    EdgeUpdate,
    EdgeDelete,
    BlobAdd,
    BlobRemove,
}

#[derive(Debug)]
pub struct NodeCreateOp {
    pub node: Node,
}

#[derive(Debug)]
pub struct NodeUpdateOp {
    pub uid: UID,
    pub before: JsonObject,
    pub after: JsonObject,
}

#[derive(Debug)]
pub struct NodeMoveOp {
    pub uid: UID,
    pub before_x: i64,
    pub before_y: i64,
    pub after_x: i64,
    pub after_y: i64,
}

#[derive(Debug)]
pub struct NodeDeleteOp {
    pub node: Node,
}

#[derive(Debug)]
pub struct EdgeCreateOp {
    pub edge: Edge,
}

#[derive(Debug)]
pub struct EdgeUpdateOp {
    pub eid: crate::types::EID,
    pub before: JsonObject,
    pub after: JsonObject,
}

#[derive(Debug)]
pub struct EdgeDeleteOp {
    pub edge: Edge,
}

/// Operation payload variants.
#[derive(Debug)]
pub enum OpData {
    NodeCreate(NodeCreateOp),
    NodeUpdate(NodeUpdateOp),
    NodeMove(NodeMoveOp),
    NodeDelete(NodeDeleteOp),
    EdgeCreate(EdgeCreateOp),
    EdgeUpdate(EdgeUpdateOp),
    EdgeDelete(EdgeDeleteOp),
}

/// A single recorded operation.
#[derive(Debug)]
pub struct Operation {
    pub id: String,
    pub kind: OpKind,
    pub timestamp: u64,
    pub data: OpData,
}

// Views

pub enum OpDataView {
    NodeCreate(NodeView),
    NodeUpdate(Seq<char>, Seq<(Seq<char>, crate::json::JsonValView)>, Seq<(Seq<char>, crate::json::JsonValView)>),
    NodeMove(Seq<char>, i64, i64, i64, i64),
    NodeDelete(NodeView),
    EdgeCreate(EdgeView),
    EdgeUpdate(Seq<char>, Seq<(Seq<char>, crate::json::JsonValView)>, Seq<(Seq<char>, crate::json::JsonValView)>),
    EdgeDelete(EdgeView),
}

pub struct OperationView {
    pub id: Seq<char>,
    pub kind: OpKind,
    pub timestamp: u64,
    pub data: OpDataView,
}

impl View for OpData {
    type V = OpDataView;

    open spec fn view(&self) -> OpDataView {
        match self {
            OpData::NodeCreate(o) => OpDataView::NodeCreate(o.node@),
            OpData::NodeUpdate(o) => OpDataView::NodeUpdate(o.uid.0@, o.before@, o.after@),
            OpData::NodeMove(o) => OpDataView::NodeMove(
                o.uid.0@,
                o.before_x,
                o.before_y,
                o.after_x,
                o.after_y,
            ),
            OpData::NodeDelete(o) => OpDataView::NodeDelete(o.node@),
            OpData::EdgeCreate(o) => OpDataView::EdgeCreate(o.edge@),
            OpData::EdgeUpdate(o) => OpDataView::EdgeUpdate(o.eid.0@, o.before@, o.after@),
            OpData::EdgeDelete(o) => OpDataView::EdgeDelete(o.edge@),
        }
    }
}

impl View for Operation {
    type V = OperationView;

    open spec fn view(&self) -> OperationView {
        OperationView { id: self.id@, kind: self.kind, timestamp: self.timestamp, data: self.data@ }
    }
}

impl Clone for OpData {
    fn clone(&self) -> (r: Self)
        ensures
            r@ == self@,
    {
        match self {
            OpData::NodeCreate(o) => OpData::NodeCreate(NodeCreateOp { node: o.node.clone() }),
            OpData::NodeUpdate(o) => OpData::NodeUpdate(
                NodeUpdateOp { uid: o.uid.clone(), before: o.before.clone(), after: o.after.clone() },
            ),
            OpData::NodeMove(o) => OpData::NodeMove(
                NodeMoveOp {
                    uid: o.uid.clone(),
                    before_x: o.before_x,
                    before_y: o.before_y,
                    after_x: o.after_x,
                    after_y: o.after_y,
                },
            ),
            OpData::NodeDelete(o) => OpData::NodeDelete(NodeDeleteOp { node: o.node.clone() }),
            OpData::EdgeCreate(o) => OpData::EdgeCreate(EdgeCreateOp { edge: o.edge.clone() }),
            OpData::EdgeUpdate(o) => OpData::EdgeUpdate(
                EdgeUpdateOp { eid: o.eid.clone(), before: o.before.clone(), after: o.after.clone() },
            ),
            OpData::EdgeDelete(o) => OpData::EdgeDelete(EdgeDeleteOp { edge: o.edge.clone() }),
        }
    }
}

impl Clone for Operation {
    fn clone(&self) -> (r: Self)
        ensures
            r@ == self@,
    {
        Operation {
            id: self.id.clone(),
            kind: self.kind,
            timestamp: self.timestamp,
            data: self.data.clone(),
        }
    }
}

pub open spec fn ops_view(s: Seq<Operation>) -> Seq<OperationView> {
    s.map(|i: int, o: Operation| o@)
}

// ---------------------------------------------------------------------------
// The log
// ---------------------------------------------------------------------------

/// The undo stack after pushing one operation: append, then evict the
/// oldest entry if the bound is exceeded. The redo stack becomes empty.
pub open spec fn push_spec(undo: Seq<OperationView>, max: int, op: OperationView) -> Seq<
    OperationView,
> {
    let t = undo.push(op);
    if t.len() > max {
        t.drop_first()
    } else {
        t
    }
}

/// The result and the two stacks after an undo pop.
pub open spec fn pop_undo_spec(undo: Seq<OperationView>, redo: Seq<OperationView>) -> (
    Option<OperationView>,
    Seq<OperationView>,
    Seq<OperationView>,
) {
    if undo.len() == 0 {
        (None, undo, redo)
    } else {
        (Some(undo.last()), undo.drop_last(), redo.push(undo.last()))
    }
}

/// The result and the two stacks after a redo pop.
pub open spec fn pop_redo_spec(undo: Seq<OperationView>, redo: Seq<OperationView>) -> (
    Option<OperationView>,
    Seq<OperationView>,
    Seq<OperationView>,
) {
    if redo.len() == 0 {
        (None, undo, redo)
    } else {
        (Some(redo.last()), undo.push(redo.last()), redo.drop_last())
    }
}

/// Bounded undo/redo stacks of recorded operations.
#[derive(Debug)]
pub struct OpsLog {
    pub undo_stack: Vec<Operation>,
    pub redo_stack: Vec<Operation>,
    pub max_size: usize,
}

impl OpsLog {
    /// A log with the default bound.
    pub fn new() -> (r: Self)
        ensures
            r.undo_stack@.len() == 0,
            r.redo_stack@.len() == 0,
            r.max_size == 100,
    {
        OpsLog { undo_stack: Vec::new(), redo_stack: Vec::new(), max_size: 100 }
    }

    /// A log with a chosen bound.
    pub fn with_max_size(max_size: usize) -> (r: Self)
        ensures
            r.undo_stack@.len() == 0,
            r.redo_stack@.len() == 0,
            r.max_size == max_size,
    {
        OpsLog { undo_stack: Vec::new(), redo_stack: Vec::new(), max_size }
    }

    /// Record an operation: clears redo, appends to undo, evicts the
    /// oldest entry when over the bound.
    pub fn push(&mut self, op: Operation)
        ensures
            ops_view(final(self).undo_stack@) == push_spec(
                ops_view(old(self).undo_stack@),
                old(self).max_size as int,
                op@,
            ),
            final(self).redo_stack@.len() == 0,
            final(self).max_size == old(self).max_size,
    {
        let ghost u0 = ops_view(self.undo_stack@);
        self.redo_stack.clear();
        self.undo_stack.push(op);
        proof {
            assert(ops_view(self.undo_stack@) =~= u0.push(ops_view(self.undo_stack@).last()));
        }
        if self.undo_stack.len() > self.max_size {
            let ghost u1 = ops_view(self.undo_stack@);
            self.undo_stack.remove(0);
            proof {
                assert(ops_view(self.undo_stack@) =~= u1.drop_first());
            }
        }
    }

    /// Move the top undo entry to redo and return it.
    pub fn pop_undo(&mut self) -> (r: Option<Operation>)
        ensures
            final(self).max_size == old(self).max_size,
            (match r {
                Some(op) => {
                    &&& old(self).undo_stack@.len() > 0
                    &&& op == old(self).undo_stack@.last()
                    &&& pop_undo_spec(
                        ops_view(old(self).undo_stack@),
                        ops_view(old(self).redo_stack@),
                    ) == (
                        Some(op@),
                        ops_view(final(self).undo_stack@),
                        ops_view(final(self).redo_stack@),
                    )
                },
                None => old(self).undo_stack@.len() == 0 && final(self).undo_stack@ == old(
                    self,
                ).undo_stack@ && final(self).redo_stack@ == old(self).redo_stack@,
            }),
    {
        let ghost u0 = ops_view(self.undo_stack@);
        let ghost r0 = ops_view(self.redo_stack@);
        match self.undo_stack.pop() {
            Some(op) => {
                let copy = op.clone();
                self.redo_stack.push(copy);
                proof {
                    assert(ops_view(self.undo_stack@) =~= u0.drop_last());
                    assert(ops_view(self.redo_stack@) =~= r0.push(u0.last()));
                }
                Some(op)
            },
            None => None,
        }
    }

    /// Move the top redo entry back to undo and return it.
    pub fn pop_redo(&mut self) -> (r: Option<Operation>)
        ensures
            final(self).max_size == old(self).max_size,
            (match r {
                Some(op) => {
                    &&& old(self).redo_stack@.len() > 0
                    &&& op == old(self).redo_stack@.last()
                    &&& pop_redo_spec(
                        ops_view(old(self).undo_stack@),
                        ops_view(old(self).redo_stack@),
                    ) == (
                        Some(op@),
                        ops_view(final(self).undo_stack@),
                        ops_view(final(self).redo_stack@),
                    )
                },
                None => old(self).redo_stack@.len() == 0 && final(self).undo_stack@ == old(
                    self,
                ).undo_stack@ && final(self).redo_stack@ == old(self).redo_stack@,
            }),
    {
        let ghost u0 = ops_view(self.undo_stack@);
        let ghost r0 = ops_view(self.redo_stack@);
        match self.redo_stack.pop() {
            Some(op) => {
                let copy = op.clone();
                self.undo_stack.push(copy);
                proof {
                    assert(ops_view(self.redo_stack@) =~= r0.drop_last());
                    assert(ops_view(self.undo_stack@) =~= u0.push(r0.last()));
                }
                Some(op)
            },
            None => None,
        }
    }

    /// Is there anything to undo?
    pub fn can_undo(&self) -> (r: bool)
        ensures
            r == (self.undo_stack@.len() > 0),
    {
        self.undo_stack.len() > 0
    }

    /// Is there anything to redo?
    pub fn can_redo(&self) -> (r: bool)
        ensures
            r == (self.redo_stack@.len() > 0),
    {
        self.redo_stack.len() > 0
    }

    /// The most recent operations, newest last.
    pub fn recent(&self, limit: usize) -> (r: &[Operation])
        ensures
            r@ == self.undo_stack@.subrange(
                if self.undo_stack@.len() >= limit {
                    self.undo_stack@.len() - limit as int
                } else {
                    0
                },
                self.undo_stack@.len() as int,
            ),
    {
        let start = if self.undo_stack.len() >= limit {
            self.undo_stack.len() - limit
        } else {
            0
        };
        vstd::slice::slice_subrange(self.undo_stack.as_slice(), start, self.undo_stack.len())
    }
}

/// Undo round trip: pushing an operation onto an empty log and undoing it
/// returns that operation, leaves the undo stack empty and the redo stack
/// holding exactly it; and any push empties the redo stack again, as
/// `push` always leaves redo empty.
pub proof fn lemma_undo_round_trip(op: OperationView, max: int)
    requires
        max >= 1,
    ensures
        ({
            let undo1 = push_spec(Seq::empty(), max, op);
            let popped = pop_undo_spec(undo1, Seq::empty());
            &&& undo1 == seq![op]
            &&& popped.0 == Some(op)
            &&& popped.1 == Seq::<OperationView>::empty()
            &&& popped.2 == seq![op]
        }),
{
    let undo1 = push_spec(Seq::empty(), max, op);
    assert(undo1 =~= seq![op]);
    let popped = pop_undo_spec(undo1, Seq::empty());
    assert(popped.1 =~= Seq::<OperationView>::empty());
    assert(popped.2 =~= seq![op]);
}

// ---------------------------------------------------------------------------
// Constructors
// ---------------------------------------------------------------------------

/// A fresh operation id.
fn new_op_id() -> (r: String)
    ensures
        crate::types::hex_id_32(r@),
{
    crate::types::fresh_id_string()
}

/// A node move operation.
pub fn make_move_op(uid: UID, before_x: i64, before_y: i64, after_x: i64, after_y: i64) -> (r:
    Operation)
    ensures
        r.kind == OpKind::NodeMove,
        crate::types::hex_id_32(r@.id),
        r@.data == OpDataView::NodeMove(uid.0@, before_x, before_y, after_x, after_y),
{
    Operation {
        id: new_op_id(),
        kind: OpKind::NodeMove,
        timestamp: now_millis(),
        data: OpData::NodeMove(NodeMoveOp { uid, before_x, before_y, after_x, after_y }),
    }
}

/// A node create operation.
pub fn make_node_create_op(node: Node) -> (r: Operation)
    ensures
        r.kind == OpKind::NodeCreate,
        crate::types::hex_id_32(r@.id),
        r@.data == OpDataView::NodeCreate(node@),
{
    Operation {
        id: new_op_id(),
        kind: OpKind::NodeCreate,
        timestamp: now_millis(),
        data: OpData::NodeCreate(NodeCreateOp { node }),
    }
}

/// A node delete operation.
pub fn make_node_delete_op(node: Node) -> (r: Operation)
    ensures
        r.kind == OpKind::NodeDelete,
        crate::types::hex_id_32(r@.id),
        r@.data == OpDataView::NodeDelete(node@),
{
    Operation {
        id: new_op_id(),
        kind: OpKind::NodeDelete,
        timestamp: now_millis(),
        data: OpData::NodeDelete(NodeDeleteOp { node }),
    }
}

/// An edge create operation.
pub fn make_edge_create_op(edge: Edge) -> (r: Operation)
    ensures
        r.kind == OpKind::EdgeCreate,
        crate::types::hex_id_32(r@.id),
        r@.data == OpDataView::EdgeCreate(edge@),
{
    Operation {
        id: new_op_id(),
        kind: OpKind::EdgeCreate,
        timestamp: now_millis(),
        data: OpData::EdgeCreate(EdgeCreateOp { edge }),
    }
}

/// An edge delete operation.
pub fn make_edge_delete_op(edge: Edge) -> (r: Operation)
    ensures
        r.kind == OpKind::EdgeDelete,
        crate::types::hex_id_32(r@.id),
        r@.data == OpDataView::EdgeDelete(edge@),
{
    Operation {
        id: new_op_id(),
        kind: OpKind::EdgeDelete,
        timestamp: now_millis(),
        data: OpData::EdgeDelete(EdgeDeleteOp { edge }),
    }
}

} // verus!
