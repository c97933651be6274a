//! Emission Dispatcher: for each visited node, invokes exactly one per-kind
//! handler, which appends declarations to the output unit of the requested
//! file enclosing the node. An unrecognized kind discriminant is rejected
//! with `UnsupportedNodeKind`, never silently skipped.

use vstd::prelude::*;

use crate::index::NodeIndex;
use crate::model::{BackendError, Node, NodeView, Payload, PayloadView};
use crate::traverse::{file_clean, reachable, reaches, traversal_ok, traverse_failure, traverse_file};

verus! {

/// One emitted target-language declaration, named by the node's display
/// name exactly as the front-end recorded it; shortening it by the
/// display-name prefix is a concern of the target-language templates, which
/// live outside this core.
#[derive(Clone, PartialEq, Eq, Debug)]
pub enum Declaration {
    StructDecl { name: String, fields: Vec<String> },
    InterfaceDecl { name: String, methods: Vec<String> },
    ConstDecl { name: String },
    EnumDecl { name: String, enumerants: Vec<String> },
    AnnotationDecl { name: String },
}

/// Spec-level image of a `Declaration`.
#[verifier::ext_equal]
pub ghost enum DeclarationView {
    StructDecl { name: Seq<char>, fields: Seq<Seq<char>> },
    InterfaceDecl { name: Seq<char>, methods: Seq<Seq<char>> },
    ConstDecl { name: Seq<char> },
    EnumDecl { name: Seq<char>, enumerants: Seq<Seq<char>> },
    AnnotationDecl { name: Seq<char> },
}

impl View for Declaration {
    type V = DeclarationView;

    open spec fn view(&self) -> DeclarationView {
        match self {
            Declaration::StructDecl { name, fields } => DeclarationView::StructDecl {
                name: name@,
                fields: fields@.map_values(|s: String| s@),
            },
            Declaration::InterfaceDecl { name, methods } => DeclarationView::InterfaceDecl {
                name: name@,
                methods: methods@.map_values(|s: String| s@),
            },
            Declaration::ConstDecl { name } => DeclarationView::ConstDecl { name: name@ },
            Declaration::EnumDecl { name, enumerants } => DeclarationView::EnumDecl {
                name: name@,
                enumerants: enumerants@.map_values(|s: String| s@),
            },
            Declaration::AnnotationDecl { name } => DeclarationView::AnnotationDecl {
                name: name@,
            },
        }
    }
}

/// The declaration a node gives rise to: none for a file (recursed into,
/// never emitted) and none for an unrecognized kind (rejected by dispatch).
pub open spec fn decl_of(n: NodeView) -> Option<DeclarationView> {
    match n.payload {
        PayloadView::File => None,
        PayloadView::Struct { fields } => Some(
            DeclarationView::StructDecl { name: n.display_name, fields },
        ),
        PayloadView::Interface { methods } => Some(
            DeclarationView::InterfaceDecl { name: n.display_name, methods },
        ),
        PayloadView::Constant => Some(DeclarationView::ConstDecl { name: n.display_name }),
        PayloadView::Enumeration { enumerants } => Some(
            DeclarationView::EnumDecl { name: n.display_name, enumerants },
        ),
        PayloadView::Annotation => Some(DeclarationView::AnnotationDecl { name: n.display_name }),
        PayloadView::Unrecognized { .. } => None,
    }
}

fn copy_string(s: &String) -> (r: String)
    ensures
        r@ == s@,
{
    String::from_str(s.as_str())
}

fn copy_strings(v: &Vec<String>) -> (r: Vec<String>)
    ensures
        r@.map_values(|s: String| s@) =~= v@.map_values(|s: String| s@),
{
    let mut r: Vec<String> = Vec::new();
    let mut i: usize = 0;
    while i < v.len()
        invariant
            i <= v@.len(),
            r@.len() == i,
            forall|k: int| 0 <= k < i ==> #[trigger] r@[k]@ == v@[k]@,
        decreases v@.len() - i,
    {
        r.push(copy_string(&v[i]));
        i += 1;
    }
    r
}

/// Handler for a struct node: one struct declaration carrying the node's
/// display name and its ordered field names.
pub fn handle_struct(node: &Node) -> (d: Declaration)
    requires
        node@.payload matches PayloadView::Struct { .. },
    ensures
        Some(d@) == decl_of(node@),
{
    match &node.payload {
        Payload::Struct { fields } => {
            let d = Declaration::StructDecl {
                name: copy_string(&node.display_name),
                fields: copy_strings(fields),
            };
            proof {
                assert(d@ =~~= decl_of(node@).unwrap());
            }
            d
        },
        _ => unreached(),
    }
}

/// Handler for an interface node: one interface declaration carrying the
/// node's display name and its ordered method names.
pub fn handle_interface(node: &Node) -> (d: Declaration)
    requires
        node@.payload matches PayloadView::Interface { .. },
    ensures
        Some(d@) == decl_of(node@),
{
    match &node.payload {
        Payload::Interface { methods } => {
            let d = Declaration::InterfaceDecl {
                name: copy_string(&node.display_name),
                methods: copy_strings(methods),
            };
            proof {
                assert(d@ =~~= decl_of(node@).unwrap());
            }
            d
        },
        _ => unreached(),
    }
}

/// Handler for a constant node: one constant declaration carrying the
/// node's display name.
pub fn handle_const(node: &Node) -> (d: Declaration)
    requires
        node@.payload is Constant,
    ensures
        Some(d@) == decl_of(node@),
{
    let d = Declaration::ConstDecl { name: copy_string(&node.display_name) };
    proof {
        assert(d@ =~~= decl_of(node@).unwrap());
    }
    d
}

/// Handler for an enumeration node: one enumeration declaration carrying the
/// node's display name and its ordered enumerant names.
pub fn handle_enum(node: &Node) -> (d: Declaration)
    requires
        node@.payload matches PayloadView::Enumeration { .. },
    ensures
        Some(d@) == decl_of(node@),
{
    match &node.payload {
        Payload::Enumeration { enumerants } => {
            let d = Declaration::EnumDecl {
                name: copy_string(&node.display_name),
                enumerants: copy_strings(enumerants),
            };
            proof {
                assert(d@ =~~= decl_of(node@).unwrap());
            }
            d
        },
        _ => unreached(),
    }
}

/// Handler for an annotation node: one annotation declaration carrying the
/// node's display name.
pub fn handle_annotation(node: &Node) -> (d: Declaration)
    requires
        node@.payload is Annotation,
    ensures
        Some(d@) == decl_of(node@),
{
    let d = Declaration::AnnotationDecl { name: copy_string(&node.display_name) };
    proof {
        assert(d@ =~~= decl_of(node@).unwrap());
    }
    d
}

/// Invokes exactly one handler for the node's kind. A file takes no handler;
/// an unrecognized kind discriminant fails with `UnsupportedNodeKind` naming
/// the node, and every recognized kind succeeds.
pub fn dispatch(node: &Node) -> (r: Result<Option<Declaration>, BackendError>)
    ensures
        r matches Ok(od) ==> match od {
            Some(d) => decl_of(node@) == Some(d@),
            None => node@.payload is File,
        },
        r is Err <==> node@.payload is Unrecognized,
        r matches Err(e) ==> e == BackendError::UnsupportedNodeKind(node@.id),
{
    match &node.payload {
        Payload::File => Ok(None),
        Payload::Struct { .. } => Ok(Some(handle_struct(node))),
        Payload::Interface { .. } => Ok(Some(handle_interface(node))),
        Payload::Constant => Ok(Some(handle_const(node))),
        Payload::Enumeration { .. } => Ok(Some(handle_enum(node))),
        Payload::Annotation => Ok(Some(handle_annotation(node))),
        Payload::Unrecognized { .. } => Err(BackendError::UnsupportedNodeKind(node.id)),
    }
}

/// The ordered declarations a visitation order gives rise to.
pub open spec fn decls_of(idx: Map<u64, NodeView>, order: Seq<u64>) -> Seq<DeclarationView>
    decreases order.len(),
{
    if order.len() == 0 {
        Seq::empty()
    } else {
        decls_of(idx, order.drop_last()) + match decl_of(idx[order.last()]) {
            Some(d) => seq![d],
            None => Seq::empty(),
        }
    }
}

/// The ordered declaration buffer for one requested top-level file.
#[derive(Clone, PartialEq, Eq, Debug)]
pub struct OutputUnit {
    pub file_id: u64,
    pub decls: Vec<Declaration>,
}

/// Dispatches every node of a visitation order, in order, appending the
/// emitted declarations to the file's output unit.
pub fn emit_for_order(idx: &NodeIndex, order: &Vec<u64>, file_id: u64) -> (r: Result<
    OutputUnit,
    BackendError,
>)
    requires
        idx.wf(),
        forall|p: int| 0 <= p < order@.len() ==> idx@.contains_key(#[trigger] order@[p]),
    ensures
        r matches Ok(u) ==> u.file_id == file_id && u.decls@.map_values(|d: Declaration| d@)
            == decls_of(idx@, order@),
        r is Ok ==> forall|p: int|
            0 <= p < order@.len() ==> !(idx@[#[trigger] order@[p]].payload is Unrecognized),
        r matches Err(e) ==> exists|p: int|
            0 <= p < order@.len() && idx@[#[trigger] order@[p]].payload is Unrecognized && e
                == BackendError::UnsupportedNodeKind(idx@[order@[p]].id),
{
    let mut decls: Vec<Declaration> = Vec::new();
    let mut i: usize = 0;
    while i < order.len()
        invariant
            idx.wf(),
            forall|p: int| 0 <= p < order@.len() ==> idx@.contains_key(#[trigger] order@[p]),
            i <= order@.len(),
            decls@.map_values(|d: Declaration| d@) =~= decls_of(idx@, order@.take(i as int)),
            forall|p: int| 0 <= p < i ==> !(idx@[#[trigger] order@[p]].payload is Unrecognized),
        decreases order@.len() - i,
    {
        let id = order[i];
        let node = match idx.lookup(id) {
            Some(n) => n,
            None => unreached(),
        };
        let ghost before = decls@.map_values(|d: Declaration| d@);
        match dispatch(node) {
            Ok(Some(d)) => {
                decls.push(d);
            },
            Ok(None) => {},
            Err(e) => {
                proof {
                    assert(idx@[order@[i as int]].payload is Unrecognized);
                }
                return Err(e);
            },
        }
        proof {
            assert(order@.take(i + 1).drop_last() =~= order@.take(i as int));
            assert(order@.take(i + 1).last() == order@[i as int]);
            assert(decls@.map_values(|d: Declaration| d@) =~= decls_of(
                idx@,
                order@.take(i + 1),
            ));
        }
        i += 1;
    }
    proof {
        assert(order@.take(order@.len() as int) =~= order@);
    }
    Ok(OutputUnit { file_id, decls })
}

/// What an emission failure for one requested file certifies: either a
/// traversal failure, or an unrecognized-kind rejection naming a node that is
/// really reachable from the file and really carries an unrecognized
/// discriminant.
pub open spec fn emit_failure(idx: Map<u64, NodeView>, root: u64, e: BackendError) -> bool {
    match e {
        BackendError::UnsupportedNodeKind(x) => reachable(idx, root, x) && idx.contains_key(x)
            && idx[x].payload is Unrecognized,
        _ => traverse_failure(idx, root, e),
    }
}

/// The file is clean for traversal and every reachable node carries a
/// recognized kind: the shape emission owes success on.
pub open spec fn emit_clean(idx: Map<u64, NodeView>, root: u64) -> bool {
    &&& file_clean(idx, root)
    &&& forall|x: u64, f: nat|
        reaches(idx, root, x, f) && idx.contains_key(x) ==> !(idx[x].payload is Unrecognized)
}

/// Traverses from one requested top-level file and emits declarations for
/// every visited node, in visitation order, into that file's output unit.
/// Succeeds whenever the file's reachable graph resolves, is acyclic and
/// holds only recognized kinds; on failure nothing is handed back for the
/// file — no partial unit escapes — and the error names a real witness.
pub fn emit_file(idx: &NodeIndex, file_id: u64) -> (r: Result<OutputUnit, BackendError>)
    requires
        idx.wf(),
    ensures
        r matches Ok(u) ==> u.file_id == file_id && exists|ord: Seq<u64>|
            #[trigger] traversal_ok(idx@, file_id, ord) && u.decls@.map_values(
                |d: Declaration| d@,
            ) == decls_of(idx@, ord),
        r matches Err(e) ==> emit_failure(idx@, file_id, e),
        emit_clean(idx@, file_id) ==> r is Ok,
{
    proof {
        // an identifier the index holds resolves to the node carrying it
        assert forall|x: u64| #[trigger] idx@.contains_key(x) implies idx@[x].id == x by {
            assert(idx.nodes@[idx.slots@[x] as int]@.id == x);
        }
    }
    let order = match traverse_file(idx, file_id) {
        Ok(o) => o,
        Err(e) => {
            return Err(e);
        },
    };
    let u = match emit_for_order(idx, &order, file_id) {
        Ok(u) => u,
        Err(e) => {
            proof {
                let p = choose|p: int|
                    0 <= p < order@.len() && idx@[#[trigger] order@[p]].payload is Unrecognized
                        && e == BackendError::UnsupportedNodeKind(idx@[order@[p]].id);
                assert(idx@[order@[p]].id == order@[p]);
                assert(reachable(idx@, file_id, order@[p]));
                assert(emit_failure(idx@, file_id, e));
                if emit_clean(idx@, file_id) {
                    let f = choose|f: nat| reaches(idx@, file_id, order@[p], f);
                    assert(!(idx@[order@[p]].payload is Unrecognized));
                }
            }
            return Err(e);
        },
    };
    proof {
        assert(traversal_ok(idx@, file_id, order@) && u.decls@.map_values(|d: Declaration| d@)
            == decls_of(idx@, order@));
    }
    Ok(u)
}

} // verus!
