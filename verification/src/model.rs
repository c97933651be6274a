//! Data model of the schema-compiler backend: the decoded request, its
//! nodes, and the error taxonomy shared by every stage of the pipeline.

use vstd::prelude::*;

verus! {

/// One entry of a node's ordered nested-node list: the name under which a
/// child declaration is nested, and the child's identifier.
#[derive(Clone, PartialEq, Eq, Debug)]
pub struct NestedRef {
    pub name: String,
    pub id: u64,
}

/// Spec-level image of a `NestedRef`.
#[verifier::ext_equal]
pub ghost struct NestedRefView {
    pub name: Seq<char>,
    pub id: u64,
}

impl View for NestedRef {
    type V = NestedRefView;

    open spec fn view(&self) -> NestedRefView {
        NestedRefView { name: self.name@, id: self.id }
    }
}

/// Kind-specific payload of a node, holding what the emission handlers
/// read: the ordered field, method and enumerant name lists. A constant's
/// type descriptor and literal value, a field's type reference and an
/// annotation's applicable-target flags stay unmodeled: no handler here
/// consumes them, and every cross-reference the traversal resolves travels
/// through the nested-node lists. An `Unrecognized` payload keeps the raw
/// kind discriminant of a node whose tag no handler knows; the dispatcher
/// rejects it instead of silently skipping the node.
#[derive(Clone, PartialEq, Eq, Debug)]
pub enum Payload {
    File,
    Struct { fields: Vec<String> },
    Interface { methods: Vec<String> },
    Constant,
    Enumeration { enumerants: Vec<String> },
    Annotation,
    Unrecognized { tag: u16 },
}

/// Spec-level image of a `Payload`.
#[verifier::ext_equal]
pub ghost enum PayloadView {
    File,
    Struct { fields: Seq<Seq<char>> },
    Interface { methods: Seq<Seq<char>> },
    Constant,
    Enumeration { enumerants: Seq<Seq<char>> },
    Annotation,
    Unrecognized { tag: u16 },
}

impl View for Payload {
    type V = PayloadView;

    open spec fn view(&self) -> PayloadView {
        match self {
            Payload::File => PayloadView::File,
            Payload::Struct { fields } => PayloadView::Struct {
                fields: fields@.map_values(|s: String| s@),
            },
            Payload::Interface { methods } => PayloadView::Interface {
                methods: methods@.map_values(|s: String| s@),
            },
            Payload::Constant => PayloadView::Constant,
            Payload::Enumeration { enumerants } => PayloadView::Enumeration {
                enumerants: enumerants@.map_values(|s: String| s@),
            },
            Payload::Annotation => PayloadView::Annotation,
            Payload::Unrecognized { tag } => PayloadView::Unrecognized { tag: *tag },
        }
    }
}

/// The kind tag of a node, as the wire encoding distinguishes them.
#[derive(Clone, Copy, PartialEq, Eq, Debug, Structural)]
pub enum NodeKind {
    File,
    Struct,
    Interface,
    Constant,
    Enumeration,
    Annotation,
    Unknown(u16),
}

/// The kind a payload belongs to.
pub open spec fn kind_of(p: PayloadView) -> NodeKind {
    match p {
        PayloadView::File => NodeKind::File,
        PayloadView::Struct { .. } => NodeKind::Struct,
        PayloadView::Interface { .. } => NodeKind::Interface,
        PayloadView::Constant => NodeKind::Constant,
        PayloadView::Enumeration { .. } => NodeKind::Enumeration,
        PayloadView::Annotation => NodeKind::Annotation,
        PayloadView::Unrecognized { tag } => NodeKind::Unknown(tag),
    }
}

/// One schema declaration: a unique identifier, a display name, the
/// identifier of its enclosing scope (zero for a top-level file), the
/// ordered list of its directly nested nodes, and its kind-specific payload.
#[derive(Clone, PartialEq, Eq, Debug)]
pub struct Node {
    pub id: u64,
    pub display_name: String,
    pub scope_id: u64,
    pub nested: Vec<NestedRef>,
    pub payload: Payload,
}

/// Spec-level image of a `Node`.
#[verifier::ext_equal]
pub ghost struct NodeView {
    pub id: u64,
    pub display_name: Seq<char>,
    pub scope_id: u64,
    pub nested: Seq<NestedRefView>,
    pub payload: PayloadView,
}

impl View for Node {
    type V = NodeView;

    open spec fn view(&self) -> NodeView {
        NodeView {
            id: self.id,
            display_name: self.display_name@,
            scope_id: self.scope_id,
            nested: self.nested@.map_values(|r: NestedRef| r@),
            payload: self.payload@,
        }
    }
}

/// The decoded compiler request: every node of the dependency closure, and
/// the ordered identifiers of the requested top-level files.
#[derive(Clone, PartialEq, Eq, Debug)]
pub struct Request {
    pub nodes: Vec<Node>,
    pub requested_files: Vec<u64>,
}

/// Spec-level image of a `Request`.
#[verifier::ext_equal]
pub ghost struct RequestView {
    pub nodes: Seq<NodeView>,
    pub requested_files: Seq<u64>,
}

impl View for Request {
    type V = RequestView;

    open spec fn view(&self) -> RequestView {
        RequestView {
            nodes: self.nodes@.map_values(|n: Node| n@),
            requested_files: self.requested_files@,
        }
    }
}

/// Everything that can go wrong between reading the wire message and
/// emitting declarations, plus the collaborator-boundary failures that the
/// surrounding program reports through the same taxonomy.
#[derive(Clone, Copy, PartialEq, Eq, Debug, Structural)]
pub enum BackendError {
    /// The wire message is truncated or structurally inconsistent.
    DecodeFailed,
    /// Two distinct nodes share this identifier.
    DuplicateIdentifier(u64),
    /// A nested-node entry references this identifier, but no node has it.
    MissingNode(u64),
    /// This identifier was reached again while its node was still being
    /// traversed: the nesting structure is not a forest.
    CycleDetected(u64),
    /// The node with this identifier carries a kind discriminant no handler
    /// knows.
    UnsupportedNodeKind(u64),
    /// The schema front-end terminated with this non-zero status.
    FrontendExit(i32),
    /// The schema front-end could not be started.
    FrontendSpawn,
}

impl BackendError {
    /// A short description of the failure, without the offending identifier
    /// (the caller holds the variant's payload for that).
    pub fn describe(&self) -> (r: &'static str)
        ensures
            r@.len() > 0,
    {
        match self {
            BackendError::DecodeFailed => {
                proof { reveal_strlit("malformed or truncated wire message"); }
                "malformed or truncated wire message"
            },
            BackendError::DuplicateIdentifier(_) => {
                proof { reveal_strlit("two nodes share an identifier"); }
                "two nodes share an identifier"
            },
            BackendError::MissingNode(_) => {
                proof { reveal_strlit("a referenced node identifier is absent"); }
                "a referenced node identifier is absent"
            },
            BackendError::CycleDetected(_) => {
                proof { reveal_strlit("the nesting structure contains a cycle"); }
                "the nesting structure contains a cycle"
            },
            BackendError::UnsupportedNodeKind(_) => {
                proof { reveal_strlit("unrecognized node kind discriminant"); }
                "unrecognized node kind discriminant"
            },
            BackendError::FrontendExit(_) => {
                proof { reveal_strlit("the schema front-end exited with failure"); }
                "the schema front-end exited with failure"
            },
            BackendError::FrontendSpawn => {
                proof { reveal_strlit("the schema front-end could not be started"); }
                "the schema front-end could not be started"
            },
        }
    }
}

} // verus!
