//! Core engine for a plain-text diagram document format: a flowchart body
//! plus machine-readable comment directives, kept in lockstep with a
//! structured graph model.
//!
//! The pipeline is parse -> reconcile -> canonicalize: a topology parser for
//! the diagram grammar, a directive parser for embedded metadata comments, a
//! graph store with stable node/edge identity, a reconciliation engine that
//! merges freshly parsed text against prior state, and a deterministic
//! canonical writer. An operation log for undo/redo sits beside the store.

use vstd::prelude::*;

pub mod directives;
pub mod document;
pub mod json;
pub mod ops;
pub mod patch;
pub mod reconcile;
pub mod seqs;
pub mod store;
pub mod text;
pub mod topology;
pub mod types;
pub mod writer;

verus! {

/// Core error type. Hard errors are reserved for boundary-format
/// violations; the parsing pipeline itself degrades to warnings.
#[derive(Debug)]
pub enum Error {
    Parse(String),
    NodeNotFound(String),
    EdgeNotFound(String),
    InvalidDirective(String),
    Reconcile(String),
    Operation(String),
}

} // verus!
