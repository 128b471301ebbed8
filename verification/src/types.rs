//! Core entity definitions: identifiers, nodes, edges and their views.

use vstd::prelude::*;
use vstd::string::StringExecFns;

use base64::Engine;

use crate::json::{JsonObject, JsonValView};

verus! {

/// Stable node identifier, kept across renames of the human-readable id.
#[derive(Debug)]
pub struct UID(pub String);

/// Stable edge identifier.
#[derive(Debug)]
pub struct EID(pub String);

/// Content-hash identifier for a stored blob.
#[derive(Debug)]
pub struct BlobId(pub String);

/// Document identifier.
#[derive(Debug)]
pub struct DocId(pub String);

/// Node kind.
#[derive(Debug, Clone, Copy, PartialEq, Eq, Structural)]
pub enum NodeKind {
    Card,
    Note,
    Code,
    Media,
    Markdown,
    Diagram,
    Oembed,
}

/// Arrow style for edges.
#[derive(Debug, Clone, Copy, PartialEq, Eq, Structural)]
pub enum ArrowKind {
    Default,
    NoHead,
}

/// Edge style properties.
#[derive(Debug)]
pub struct EdgeStyle {
    pub stroke: Option<String>,
    pub dashed: Option<bool>,
    pub arrow: Option<ArrowKind>,
}

/// Node style properties.
#[derive(Debug)]
pub struct NodeStyle {
    pub stroke: Option<String>,
    pub fill: Option<String>,
    pub border: Option<String>,
}

/// Code block metadata.
#[derive(Debug)]
pub struct CodeMeta {
    pub language: Option<String>,
    pub detected_language: Option<String>,
    pub content: Option<String>,
}

/// Media (image/video/audio) metadata; the duration is in milliseconds.
#[derive(Debug)]
pub struct MediaMeta {
    pub src: String,
    pub alt: Option<String>,
    pub poster: Option<String>,
    pub duration: Option<u64>,
    pub blob_id: Option<BlobId>,
}

/// Nested diagram metadata.
#[derive(Debug)]
pub struct DiagramMeta {
    pub title: Option<String>,
    pub diagram_text: Option<String>,
}

/// A node in the graph.
#[derive(Debug)]
pub struct Node {
    pub uid: UID,
    pub mermaid_id: String,
    pub label: Option<String>,
    pub x: Option<i64>,
    pub y: Option<i64>,
    pub kind: NodeKind,
    pub style: Option<NodeStyle>,
    pub code: Option<CodeMeta>,
    pub media: Option<MediaMeta>,
    pub diagram: Option<DiagramMeta>,
    pub markdown: Option<String>,
    pub meta: Option<JsonObject>,
    pub deleted: bool,
    pub updated_at: Option<u64>,
}

/// An edge in the graph.
#[derive(Debug)]
pub struct Edge {
    pub eid: EID,
    pub source: UID,
    pub target: UID,
    pub label: Option<String>,
    pub style: Option<EdgeStyle>,
    pub meta: Option<JsonObject>,
    pub deleted: bool,
    pub updated_at: Option<u64>,
}

/// Blob reference.
#[derive(Debug)]
pub struct BlobRef {
    pub blob_id: BlobId,
    pub mime_type: String,
    pub size: u64,
}

// ---------------------------------------------------------------------------
// Views
// ---------------------------------------------------------------------------

pub open spec fn opt_str_view(o: Option<String>) -> Option<Seq<char>> {
    match o {
        Some(s) => Some(s@),
        None => None,
    }
}

pub struct NodeStyleView {
    pub stroke: Option<Seq<char>>,
    pub fill: Option<Seq<char>>,
    pub border: Option<Seq<char>>,
}

pub struct EdgeStyleView {
    pub stroke: Option<Seq<char>>,
    pub dashed: Option<bool>,
    pub arrow: Option<ArrowKind>,
}

pub struct CodeMetaView {
    pub language: Option<Seq<char>>,
    pub detected_language: Option<Seq<char>>,
    pub content: Option<Seq<char>>,
}

pub struct MediaMetaView {
    pub src: Seq<char>,
    pub alt: Option<Seq<char>>,
    pub poster: Option<Seq<char>>,
    pub duration: Option<u64>,
    pub blob_id: Option<Seq<char>>,
}

pub struct DiagramMetaView {
    pub title: Option<Seq<char>>,
    pub diagram_text: Option<Seq<char>>,
}

pub struct NodeView {
    pub uid: Seq<char>,
    pub mermaid_id: Seq<char>,
    pub label: Option<Seq<char>>,
    pub x: Option<i64>,
    pub y: Option<i64>,
    pub kind: NodeKind,
    pub style: Option<NodeStyleView>,
    pub code: Option<CodeMetaView>,
    pub media: Option<MediaMetaView>,
    pub diagram: Option<DiagramMetaView>,
    pub markdown: Option<Seq<char>>,
    pub meta: Option<Seq<(Seq<char>, JsonValView)>>,
    pub deleted: bool,
    pub updated_at: Option<u64>,
}

pub struct EdgeView {
    pub eid: Seq<char>,
    pub source: Seq<char>,
    pub target: Seq<char>,
    pub label: Option<Seq<char>>,
    pub style: Option<EdgeStyleView>,
    pub meta: Option<Seq<(Seq<char>, JsonValView)>>,
    pub deleted: bool,
    pub updated_at: Option<u64>,
}

impl View for NodeStyle {
    type V = NodeStyleView;

    open spec fn view(&self) -> NodeStyleView {
        NodeStyleView {
            stroke: opt_str_view(self.stroke),
            fill: opt_str_view(self.fill),
            border: opt_str_view(self.border),
        }
    }
}

impl View for EdgeStyle {
    type V = EdgeStyleView;

    open spec fn view(&self) -> EdgeStyleView {
        EdgeStyleView {
            stroke: opt_str_view(self.stroke),
            dashed: self.dashed,
            arrow: self.arrow,
        }
    }
}

impl View for CodeMeta {
    type V = CodeMetaView;

    open spec fn view(&self) -> CodeMetaView {
        CodeMetaView {
            language: opt_str_view(self.language),
            detected_language: opt_str_view(self.detected_language),
            content: opt_str_view(self.content),
        }
    }
}

impl View for MediaMeta {
    type V = MediaMetaView;

    open spec fn view(&self) -> MediaMetaView {
        MediaMetaView {
            src: self.src@,
            alt: opt_str_view(self.alt),
            poster: opt_str_view(self.poster),
            duration: self.duration,
            blob_id: match self.blob_id {
                Some(b) => Some(b.0@),
                None => None,
            },
        }
    }
}

impl View for DiagramMeta {
    type V = DiagramMetaView;

    open spec fn view(&self) -> DiagramMetaView {
        DiagramMetaView {
            title: opt_str_view(self.title),
            diagram_text: opt_str_view(self.diagram_text),
        }
    }
}

pub open spec fn opt_view<T: View>(o: Option<T>) -> Option<T::V> {
    match o {
        Some(v) => Some(v@),
        None => None,
    }
}

impl View for Node {
    type V = NodeView;

    open spec fn view(&self) -> NodeView {
        NodeView {
            uid: self.uid.0@,
            mermaid_id: self.mermaid_id@,
            label: opt_str_view(self.label),
            x: self.x,
            y: self.y,
            kind: self.kind,
            style: opt_view(self.style),
            code: opt_view(self.code),
            media: opt_view(self.media),
            diagram: opt_view(self.diagram),
            markdown: opt_str_view(self.markdown),
            meta: opt_view(self.meta),
            deleted: self.deleted,
            updated_at: self.updated_at,
        }
    }
}

impl View for Edge {
    type V = EdgeView;

    open spec fn view(&self) -> EdgeView {
        EdgeView {
            eid: self.eid.0@,
            source: self.source.0@,
            target: self.target.0@,
            label: opt_str_view(self.label),
            style: opt_view(self.style),
            meta: opt_view(self.meta),
            deleted: self.deleted,
            updated_at: self.updated_at,
        }
    }
}

// ---------------------------------------------------------------------------
// Cloning
// ---------------------------------------------------------------------------

/// Clone an optional string, keeping its value.
pub fn clone_opt_string(o: &Option<String>) -> (r: Option<String>)
    ensures
        r == *o,
{
    match o {
        Some(s) => Some(s.clone()),
        None => None,
    }
}

impl Clone for UID {
    fn clone(&self) -> (r: Self)
        ensures
            r.0@ == self.0@,
    {
        UID(self.0.clone())
    }
}

impl Clone for EID {
    fn clone(&self) -> (r: Self)
        ensures
            r.0@ == self.0@,
    {
        EID(self.0.clone())
    }
}

impl Clone for BlobId {
    fn clone(&self) -> (r: Self)
        ensures
            r.0@ == self.0@,
    {
        BlobId(self.0.clone())
    }
}

impl Clone for DocId {
    fn clone(&self) -> (r: Self)
        ensures
            r.0@ == self.0@,
    {
        DocId(self.0.clone())
    }
}

impl Clone for NodeStyle {
    fn clone(&self) -> (r: Self)
        ensures
            r@ == self@,
    {
        NodeStyle {
            stroke: clone_opt_string(&self.stroke),
            fill: clone_opt_string(&self.fill),
            border: clone_opt_string(&self.border),
        }
    }
}

impl Clone for EdgeStyle {
    fn clone(&self) -> (r: Self)
        ensures
            r@ == self@,
    {
        EdgeStyle {
            stroke: clone_opt_string(&self.stroke),
            dashed: self.dashed,
            arrow: self.arrow,
        }
    }
}

impl Clone for CodeMeta {
    fn clone(&self) -> (r: Self)
        ensures
            r@ == self@,
    {
        CodeMeta {
            language: clone_opt_string(&self.language),
            detected_language: clone_opt_string(&self.detected_language),
            content: clone_opt_string(&self.content),
        }
    }
}

impl Clone for MediaMeta {
    fn clone(&self) -> (r: Self)
        ensures
            r@ == self@,
    {
        MediaMeta {
            src: self.src.clone(),
            alt: clone_opt_string(&self.alt),
            poster: clone_opt_string(&self.poster),
            duration: self.duration,
            blob_id: match &self.blob_id {
                Some(b) => Some(b.clone()),
                None => None,
            },
        }
    }
}

impl Clone for DiagramMeta {
    fn clone(&self) -> (r: Self)
        ensures
            r@ == self@,
    {
        DiagramMeta {
            title: clone_opt_string(&self.title),
            diagram_text: clone_opt_string(&self.diagram_text),
        }
    }
}

fn clone_opt_meta(o: &Option<JsonObject>) -> (r: Option<JsonObject>)
    ensures
        opt_view(*o) == opt_view(r),
{
    match o {
        Some(m) => Some(m.clone()),
        None => None,
    }
}

impl Clone for Node {
    fn clone(&self) -> (r: Self)
        ensures
            r@ == self@,
    {
        Node {
            uid: self.uid.clone(),
            mermaid_id: self.mermaid_id.clone(),
            label: clone_opt_string(&self.label),
            x: self.x,
            y: self.y,
            kind: self.kind,
            style: match &self.style {
                Some(s) => Some(s.clone()),
                None => None,
            },
            code: match &self.code {
                Some(c) => Some(c.clone()),
                None => None,
            },
            media: match &self.media {
                Some(m) => Some(m.clone()),
                None => None,
            },
            diagram: match &self.diagram {
                Some(d) => Some(d.clone()),
                None => None,
            },
            markdown: clone_opt_string(&self.markdown),
            meta: clone_opt_meta(&self.meta),
            deleted: self.deleted,
            updated_at: self.updated_at,
        }
    }
}

impl Clone for Edge {
    fn clone(&self) -> (r: Self)
        ensures
            r@ == self@,
    {
        Edge {
            eid: self.eid.clone(),
            source: self.source.clone(),
            target: self.target.clone(),
            label: clone_opt_string(&self.label),
            style: match &self.style {
                Some(s) => Some(s.clone()),
                None => None,
            },
            meta: clone_opt_meta(&self.meta),
            deleted: self.deleted,
            updated_at: self.updated_at,
        }
    }
}

// ---------------------------------------------------------------------------
// Identifier generation (trusted at the edges)
// ---------------------------------------------------------------------------

/// A lower-case hexadecimal digit.
pub open spec fn is_lower_hex_char(c: char) -> bool {
    ('0' <= c && c <= '9') || ('a' <= c && c <= 'f')
}

/// The shape of a freshly drawn 32-digit identifier body.
pub open spec fn hex_id_32(s: Seq<char>) -> bool {
    s.len() == 32 && forall|i: int| 0 <= i < s.len() ==> is_lower_hex_char(#[trigger] s[i])
}

/// Relies on `uuid::Uuid::new_v4` and its `simple` formatter: a freshly
/// drawn random identifier rendered as exactly 32 lower-case hexadecimal
/// digits. Nothing is assumed about which digits come out.
#[verifier::external_body]
fn uuid_simple() -> (r: String)
    ensures
        hex_id_32(r@),
{
    uuid::Uuid::new_v4().simple().to_string()
}

/// A fresh 32-digit random identifier with no prefix.
pub fn fresh_id_string() -> (r: String)
    ensures
        hex_id_32(r@),
{
    uuid_simple()
}

/// Relies on `std::time::SystemTime::now`: the wall clock in milliseconds
/// since the epoch. Nothing is assumed about the value.
#[verifier::external_body]
pub fn now_millis() -> u64 {
    std::time::SystemTime::now()
        .duration_since(std::time::UNIX_EPOCH)
        .map(|d| d.as_millis() as u64)
        .unwrap_or(0)
}

/// What `base64`'s URL-safe unpadded engine encodes a byte string to.
pub uninterp spec fn b64url_of(b: Seq<u8>) -> Seq<char>;

/// The length of an unpadded base64 encoding.
pub open spec fn b64url_len(n: int) -> int {
    n / 3 * 4 + if n % 3 == 0 {
        0int
    } else if n % 3 == 1 {
        2int
    } else {
        3int
    }
}

/// Relies on `base64::engine::general_purpose::URL_SAFE_NO_PAD`: encodes the
/// bytes as base64 without padding; the output length follows the crate's
/// `encoded_len` with a remainder of one byte adding two digits and a
/// remainder of two adding three.
#[verifier::external_body]
fn b64_encode_url_nopad(b: &[u8]) -> (r: String)
    ensures
        r@ == b64url_of(b@),
        r@.len() == b64url_len(b@.len() as int),
{
    base64::engine::general_purpose::URL_SAFE_NO_PAD.encode(b)
}

/// The shape of a freshly generated node identifier: the `n_` prefix and
/// 32 lower-case hex digits.
pub open spec fn fresh_uid_shape(s: Seq<char>) -> bool {
    s.len() == 34 && s[0] == 'n' && s[1] == '_' && (forall|i: int|
        2 <= i < s.len() ==> is_lower_hex_char(#[trigger] s[i]))
}

/// The shape of a freshly generated edge identifier.
pub open spec fn fresh_eid_shape(s: Seq<char>) -> bool {
    s.len() == 34 && s[0] == 'e' && s[1] == '_' && (forall|i: int|
        2 <= i < s.len() ==> is_lower_hex_char(#[trigger] s[i]))
}

impl UID {
    /// A fresh random identifier with the `n_` prefix.
    pub fn new() -> (r: Self)
        ensures
            fresh_uid_shape(r.0@),
    {
        let mut s = String::from_str("n_");
        let suffix = uuid_simple();
        s.append(suffix.as_str());
        proof {
            reveal_strlit("n_");
            assert(forall|i: int| 2 <= i < s@.len() ==> #[trigger] s@[i] == suffix@[i - 2]);
        }
        UID(s)
    }

    /// An identifier taken verbatim from existing text.
    pub fn from_str(s: &str) -> (r: Self)
        ensures
            r.0@ == s@,
    {
        UID(String::from_str(s))
    }
}

impl EID {
    /// A fresh random identifier with the `e_` prefix.
    pub fn new() -> (r: Self)
        ensures
            fresh_eid_shape(r.0@),
    {
        let mut s = String::from_str("e_");
        let suffix = uuid_simple();
        s.append(suffix.as_str());
        proof {
            reveal_strlit("e_");
            assert(forall|i: int| 2 <= i < s@.len() ==> #[trigger] s@[i] == suffix@[i - 2]);
        }
        EID(s)
    }

    /// An identifier taken verbatim from existing text.
    pub fn from_str(s: &str) -> (r: Self)
        ensures
            r.0@ == s@,
    {
        EID(String::from_str(s))
    }
}

impl BlobId {
    /// The identifier derived from a content hash.
    pub fn from_hash(hash: &[u8]) -> (r: Self)
        ensures
            r.0@ == b64url_of(hash@),
            r.0@.len() == b64url_len(hash@.len() as int),
    {
        BlobId(b64_encode_url_nopad(hash))
    }
}

impl DocId {
    /// The identifier of a document at a path.
    pub fn from_path(path: &str) -> (r: Self)
        ensures
            r.0@ == path@,
    {
        DocId(String::from_str(path))
    }

    /// A fresh identifier for an unsaved document.
    pub fn temp() -> (r: Self)
        ensures
            r.0@.len() == 36,
            r.0@[0] == 't',
            r.0@[1] == 'm',
            r.0@[2] == 'p',
            r.0@[3] == '_',
    {
        let mut s = String::from_str("tmp_");
        let suffix = uuid_simple();
        s.append(suffix.as_str());
        proof {
            reveal_strlit("tmp_");
        }
        DocId(s)
    }
}

/// The fields every new node starts from.
pub open spec fn blank_node(n: NodeView) -> bool {
    n.label is None && n.x is None && n.y is None && n.kind == NodeKind::Card && n.style is None
        && n.code is None && n.media is None && n.diagram is None && n.markdown is None
        && n.meta is None && !n.deleted && n.updated_at is Some
}

impl Node {
    /// A new node with a fresh identifier.
    pub fn new(mermaid_id: &str) -> (r: Self)
        ensures
            fresh_uid_shape(r@.uid),
            r@.mermaid_id == mermaid_id@,
            blank_node(r@),
    {
        Node {
            uid: UID::new(),
            mermaid_id: String::from_str(mermaid_id),
            label: None,
            x: None,
            y: None,
            kind: NodeKind::Card,
            style: None,
            code: None,
            media: None,
            diagram: None,
            markdown: None,
            meta: None,
            deleted: false,
            updated_at: Some(now_millis()),
        }
    }

    /// A new node with the given identifier.
    pub fn with_uid(uid: UID, mermaid_id: &str) -> (r: Self)
        ensures
            r@.uid == uid.0@,
            r@.mermaid_id == mermaid_id@,
            blank_node(r@),
    {
        Node {
            uid,
            mermaid_id: String::from_str(mermaid_id),
            label: None,
            x: None,
            y: None,
            kind: NodeKind::Card,
            style: None,
            code: None,
            media: None,
            diagram: None,
            markdown: None,
            meta: None,
            deleted: false,
            updated_at: Some(now_millis()),
        }
    }
}

/// The fields every new edge starts from.
pub open spec fn blank_edge(e: EdgeView) -> bool {
    e.label is None && e.style is None && e.meta is None && !e.deleted && e.updated_at is Some
}

impl Edge {
    /// A new edge with a fresh identifier.
    pub fn new(source: UID, target: UID) -> (r: Self)
        ensures
            fresh_eid_shape(r@.eid),
            r@.source == source.0@,
            r@.target == target.0@,
            blank_edge(r@),
    {
        Edge {
            eid: EID::new(),
            source,
            target,
            label: None,
            style: None,
            meta: None,
            deleted: false,
            updated_at: Some(now_millis()),
        }
    }

    /// A new edge with the given identifier.
    pub fn with_eid(eid: EID, source: UID, target: UID) -> (r: Self)
        ensures
            r@.eid == eid.0@,
            r@.source == source.0@,
            r@.target == target.0@,
            blank_edge(r@),
    {
        Edge {
            eid,
            source,
            target,
            label: None,
            style: None,
            meta: None,
            deleted: false,
            updated_at: Some(now_millis()),
        }
    }
}

} // verus!
