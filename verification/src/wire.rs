//! Wire decoder: reads one length-delimited, binary-encoded compiler request
//! from a byte buffer into an addressable message, and converts that message
//! into the plain `Request` the rest of the backend is verified over.
//!
//! Every call into the message goes through a small trusted wrapper. The
//! wrappers' contracts speak of one name, `wire_request`: the full content of
//! the decoded message, which depends on the message value alone. The
//! conversion `read_request` is verified: whenever it succeeds, the `Request`
//! it returns is exactly that content.

use vstd::prelude::*;

use crate::model::{BackendError, NestedRef, Node, NodeKind, Payload, Request};
use crate::model::{kind_of, PayloadView, RequestView};
use capnp::schema_capnp::code_generator_request;
use capnp::schema_capnp::node;

verus! {

/// A decoded wire message, addressable without re-scanning the bytes. It
/// holds the collection of encoded records; Verus refuses the reader type's
/// own declaration (its segment parameter is bound by an outside trait), so
/// the reader stays in a private field and every access goes through the
/// trusted wrappers below.
#[verifier::external_body]
pub struct Wire {
    inner: capnp::message::Reader<capnp::serialize::OwnedSegments>,
}

/// The full content of a decoded message: its node list and its requested
/// top-level file identifiers. A message is immutable, so its content is a
/// function of the message value alone.
pub uninterp spec fn wire_request(m: Wire) -> RequestView;

/// Whether the byte buffer holds one well-formed length-delimited message:
/// with fixed reader options, read_message's success is a function of the
/// bytes alone.
pub uninterp spec fn wire_ok(bytes: Seq<u8>) -> bool;

/// The content of the message the byte buffer encodes, when it decodes: a
/// function of the bytes alone.
pub uninterp spec fn request_of(bytes: Seq<u8>) -> RequestView;

/// Relies on capnp::serialize::read_message: reads exactly one
/// length-delimited message from the byte buffer, and fails (rather than
/// panics) on truncated input or segment offsets outside the message bounds.
/// The message is then re-opened without the per-read traversal budget: the
/// budget amortizes one pass, but this backend's wrappers each navigate from
/// the root, so the budget would be charged once per accessed value; offset
/// bounds checks are unaffected. Decoding itself keeps the default limits,
/// so allocation stays capped while reading.
#[verifier::external_body]
pub(crate) fn wire_decode(bytes: &Vec<u8>) -> (r: Result<Wire, BackendError>)
    ensures
        r is Ok <==> wire_ok(bytes@),
        r matches Ok(m) ==> wire_request(m) == request_of(bytes@),
        r matches Err(e) ==> e == BackendError::DecodeFailed,
{
    let opts = capnp::message::ReaderOptions::new();
    let m = match capnp::serialize::read_message(bytes.as_slice(), opts) { Ok(m) => m, Err(_) => return Err(BackendError::DecodeFailed) };
    let mut open = capnp::message::ReaderOptions::new();
    open.traversal_limit_in_words(None);
    Ok(Wire { inner: capnp::message::Reader::new(m.into_segments(), open) })
}

/// Relies on code_generator_request::Reader::get_nodes: the length of the
/// message's node list.
#[verifier::external_body]
pub(crate) fn wire_node_count(m: &Wire) -> (r: Result<usize, BackendError>)
    ensures
        r matches Ok(n) ==> n == wire_request(*m).nodes.len(),
{
    let e = BackendError::DecodeFailed;
    let root: code_generator_request::Reader = m.inner.get_root().map_err(|_| e)?;
    let nodes = root.get_nodes().map_err(|_| e)?;
    Ok(nodes.len() as usize)
}

/// Relies on node::Reader::get_id: the identifier of the message's i-th node.
#[verifier::external_body]
pub(crate) fn wire_node_id(m: &Wire, i: usize) -> (r: Result<u64, BackendError>)
    ensures
        r matches Ok(id) ==> i < wire_request(*m).nodes.len() && id == wire_request(
            *m,
        ).nodes[i as int].id,
{
    let e = BackendError::DecodeFailed;
    let root: code_generator_request::Reader = m.inner.get_root().map_err(|_| e)?;
    let nodes = root.get_nodes().map_err(|_| e)?;
    if i >= nodes.len() as usize { return Err(e); }
    Ok(nodes.get(i as u32).get_id())
}

/// Relies on node::Reader::get_display_name: the display name of the
/// message's i-th node.
#[verifier::external_body]
pub(crate) fn wire_node_name(m: &Wire, i: usize) -> (r: Result<String, BackendError>)
    ensures
        r matches Ok(s) ==> i < wire_request(*m).nodes.len() && s@ == wire_request(
            *m,
        ).nodes[i as int].display_name,
{
    let e = BackendError::DecodeFailed;
    let root: code_generator_request::Reader = m.inner.get_root().map_err(|_| e)?;
    let nodes = root.get_nodes().map_err(|_| e)?;
    if i >= nodes.len() as usize { return Err(e); }
    let t = nodes.get(i as u32).get_display_name().map_err(|_| e)?;
    t.to_string().map_err(|_| e)
}

/// Relies on node::Reader::get_scope_id: the enclosing-scope identifier of
/// the message's i-th node (zero for a top-level file).
#[verifier::external_body]
pub(crate) fn wire_node_scope(m: &Wire, i: usize) -> (r: Result<u64, BackendError>)
    ensures
        r matches Ok(sc) ==> i < wire_request(*m).nodes.len() && sc == wire_request(
            *m,
        ).nodes[i as int].scope_id,
{
    let e = BackendError::DecodeFailed;
    let root: code_generator_request::Reader = m.inner.get_root().map_err(|_| e)?;
    let nodes = root.get_nodes().map_err(|_| e)?;
    if i >= nodes.len() as usize { return Err(e); }
    Ok(nodes.get(i as u32).get_scope_id())
}

/// Relies on node::Reader::which: the kind discriminant of the message's
/// i-th node; an unrecognized discriminant is handed back as `Unknown`.
#[verifier::external_body]
pub(crate) fn wire_node_kind(m: &Wire, i: usize) -> (r: Result<NodeKind, BackendError>)
    ensures
        r matches Ok(k) ==> i < wire_request(*m).nodes.len() && k == kind_of(
            wire_request(*m).nodes[i as int].payload,
        ),
{
    let e = BackendError::DecodeFailed;
    let root: code_generator_request::Reader = m.inner.get_root().map_err(|_| e)?;
    let nodes = root.get_nodes().map_err(|_| e)?;
    if i >= nodes.len() as usize { return Err(e); }
    Ok(match nodes.get(i as u32).which() {
        Ok(node::File(())) => NodeKind::File,
        Ok(node::Struct(_)) => NodeKind::Struct,
        Ok(node::Enum(_)) => NodeKind::Enumeration,
        Ok(node::Interface(_)) => NodeKind::Interface,
        Ok(node::Const(_)) => NodeKind::Constant,
        Ok(node::Annotation(_)) => NodeKind::Annotation,
        Err(capnp::NotInSchema(tag)) => NodeKind::Unknown(tag),
    })
}

/// Relies on node::Reader::get_nested_nodes: the length of the i-th node's
/// nested-node list.
#[verifier::external_body]
pub(crate) fn wire_nested_count(m: &Wire, i: usize) -> (r: Result<usize, BackendError>)
    ensures
        r matches Ok(c) ==> i < wire_request(*m).nodes.len() && c == wire_request(
            *m,
        ).nodes[i as int].nested.len(),
{
    let e = BackendError::DecodeFailed;
    let root: code_generator_request::Reader = m.inner.get_root().map_err(|_| e)?;
    let nodes = root.get_nodes().map_err(|_| e)?;
    if i >= nodes.len() as usize { return Err(e); }
    Ok(nodes.get(i as u32).get_nested_nodes().map_err(|_| e)?.len() as usize)
}

/// Relies on node::nested_node::Reader::get_name: the name under which the
/// j-th nested entry of the i-th node is declared.
#[verifier::external_body]
pub(crate) fn wire_nested_name(m: &Wire, i: usize, j: usize) -> (r: Result<String, BackendError>)
    ensures
        r matches Ok(s) ==> i < wire_request(*m).nodes.len() && j < wire_request(
            *m,
        ).nodes[i as int].nested.len() && s@ == wire_request(
            *m,
        ).nodes[i as int].nested[j as int].name,
{
    let e = BackendError::DecodeFailed;
    let root: code_generator_request::Reader = m.inner.get_root().map_err(|_| e)?;
    let nodes = root.get_nodes().map_err(|_| e)?;
    if i >= nodes.len() as usize { return Err(e); }
    let nested = nodes.get(i as u32).get_nested_nodes().map_err(|_| e)?;
    if j >= nested.len() as usize { return Err(e); }
    let t = nested.get(j as u32).get_name().map_err(|_| e)?;
    t.to_string().map_err(|_| e)
}

/// Relies on node::nested_node::Reader::get_id: the identifier the j-th
/// nested entry of the i-th node references.
#[verifier::external_body]
pub(crate) fn wire_nested_id(m: &Wire, i: usize, j: usize) -> (r: Result<u64, BackendError>)
    ensures
        r matches Ok(id) ==> i < wire_request(*m).nodes.len() && j < wire_request(
            *m,
        ).nodes[i as int].nested.len() && id == wire_request(
            *m,
        ).nodes[i as int].nested[j as int].id,
{
    let e = BackendError::DecodeFailed;
    let root: code_generator_request::Reader = m.inner.get_root().map_err(|_| e)?;
    let nodes = root.get_nodes().map_err(|_| e)?;
    if i >= nodes.len() as usize { return Err(e); }
    let nested = nodes.get(i as u32).get_nested_nodes().map_err(|_| e)?;
    if j >= nested.len() as usize { return Err(e); }
    Ok(nested.get(j as u32).get_id())
}

/// Relies on code_generator_request::Reader::get_requested_files: the length
/// of the requested top-level file list.
#[verifier::external_body]
pub(crate) fn wire_requested_count(m: &Wire) -> (r: Result<usize, BackendError>)
    ensures
        r matches Ok(c) ==> c == wire_request(*m).requested_files.len(),
{
    let e = BackendError::DecodeFailed;
    let root: code_generator_request::Reader = m.inner.get_root().map_err(|_| e)?;
    Ok(root.get_requested_files().map_err(|_| e)?.len() as usize)
}

/// Relies on code_generator_request::requested_file::Reader::get_id: the
/// identifier of the k-th requested top-level file.
#[verifier::external_body]
pub(crate) fn wire_requested_id(m: &Wire, k: usize) -> (r: Result<u64, BackendError>)
    ensures
        r matches Ok(id) ==> k < wire_request(*m).requested_files.len() && id == wire_request(
            *m,
        ).requested_files[k as int],
{
    let e = BackendError::DecodeFailed;
    let root: code_generator_request::Reader = m.inner.get_root().map_err(|_| e)?;
    let files = root.get_requested_files().map_err(|_| e)?;
    if k >= files.len() as usize { return Err(e); }
    Ok(files.get(k as u32).get_id())
}

/// Relies on node::struct_::Reader::get_fields: the length of a struct
/// node's ordered field list.
#[verifier::external_body]
pub(crate) fn wire_field_count(m: &Wire, i: usize) -> (r: Result<usize, BackendError>)
    ensures
        r matches Ok(c) ==> i < wire_request(*m).nodes.len() && (wire_request(
            *m,
        ).nodes[i as int].payload matches PayloadView::Struct { fields } && c == fields.len()),
{
    let e = BackendError::DecodeFailed;
    let root: code_generator_request::Reader = m.inner.get_root().map_err(|_| e)?;
    let nodes = root.get_nodes().map_err(|_| e)?;
    if i >= nodes.len() as usize { return Err(e); }
    let st = match nodes.get(i as u32).which() { Ok(node::Struct(s)) => s, _ => return Err(e) };
    Ok(st.get_fields().map_err(|_| e)?.len() as usize)
}

/// Relies on schema field::Reader::get_name: the name of the j-th field of a
/// struct node.
#[verifier::external_body]
pub(crate) fn wire_field_name(m: &Wire, i: usize, j: usize) -> (r: Result<String, BackendError>)
    ensures
        r matches Ok(s) ==> i < wire_request(*m).nodes.len() && (wire_request(
            *m,
        ).nodes[i as int].payload matches PayloadView::Struct { fields } && j < fields.len() && s@
            == fields[j as int]),
{
    let e = BackendError::DecodeFailed;
    let root: code_generator_request::Reader = m.inner.get_root().map_err(|_| e)?;
    let nodes = root.get_nodes().map_err(|_| e)?;
    if i >= nodes.len() as usize { return Err(e); }
    let st = match nodes.get(i as u32).which() { Ok(node::Struct(s)) => s, _ => return Err(e) };
    let fields = st.get_fields().map_err(|_| e)?;
    if j >= fields.len() as usize { return Err(e); }
    let t = fields.get(j as u32).get_name().map_err(|_| e)?;
    t.to_string().map_err(|_| e)
}

/// Relies on node::interface::Reader::get_methods: the length of an
/// interface node's ordered method list.
#[verifier::external_body]
pub(crate) fn wire_method_count(m: &Wire, i: usize) -> (r: Result<usize, BackendError>)
    ensures
        r matches Ok(c) ==> i < wire_request(*m).nodes.len() && (wire_request(
            *m,
        ).nodes[i as int].payload matches PayloadView::Interface { methods } && c == methods.len()),
{
    let e = BackendError::DecodeFailed;
    let root: code_generator_request::Reader = m.inner.get_root().map_err(|_| e)?;
    let nodes = root.get_nodes().map_err(|_| e)?;
    if i >= nodes.len() as usize { return Err(e); }
    let it = match nodes.get(i as u32).which() { Ok(node::Interface(x)) => x, _ => return Err(e) };
    Ok(it.get_methods().map_err(|_| e)?.len() as usize)
}

/// Relies on schema method::Reader::get_name: the name of the j-th method of
/// an interface node.
#[verifier::external_body]
pub(crate) fn wire_method_name(m: &Wire, i: usize, j: usize) -> (r: Result<String, BackendError>)
    ensures
        r matches Ok(s) ==> i < wire_request(*m).nodes.len() && (wire_request(
            *m,
        ).nodes[i as int].payload matches PayloadView::Interface { methods } && j < methods.len()
            && s@ == methods[j as int]),
{
    let e = BackendError::DecodeFailed;
    let root: code_generator_request::Reader = m.inner.get_root().map_err(|_| e)?;
    let nodes = root.get_nodes().map_err(|_| e)?;
    if i >= nodes.len() as usize { return Err(e); }
    let it = match nodes.get(i as u32).which() { Ok(node::Interface(x)) => x, _ => return Err(e) };
    let methods = it.get_methods().map_err(|_| e)?;
    if j >= methods.len() as usize { return Err(e); }
    let t = methods.get(j as u32).get_name().map_err(|_| e)?;
    t.to_string().map_err(|_| e)
}

/// Relies on node::enum_::Reader::get_enumerants: the length of an
/// enumeration node's ordered enumerant list.
#[verifier::external_body]
pub(crate) fn wire_enumerant_count(m: &Wire, i: usize) -> (r: Result<usize, BackendError>)
    ensures
        r matches Ok(c) ==> i < wire_request(*m).nodes.len() && (wire_request(
            *m,
        ).nodes[i as int].payload matches PayloadView::Enumeration { enumerants } && c
            == enumerants.len()),
{
    let e = BackendError::DecodeFailed;
    let root: code_generator_request::Reader = m.inner.get_root().map_err(|_| e)?;
    let nodes = root.get_nodes().map_err(|_| e)?;
    if i >= nodes.len() as usize { return Err(e); }
    let en = match nodes.get(i as u32).which() { Ok(node::Enum(x)) => x, _ => return Err(e) };
    Ok(en.get_enumerants().map_err(|_| e)?.len() as usize)
}

/// Relies on schema enumerant::Reader::get_name: the name of the j-th
/// enumerant of an enumeration node.
#[verifier::external_body]
pub(crate) fn wire_enumerant_name(m: &Wire, i: usize, j: usize) -> (r: Result<
    String,
    BackendError,
>)
    ensures
        r matches Ok(s) ==> i < wire_request(*m).nodes.len() && (wire_request(
            *m,
        ).nodes[i as int].payload matches PayloadView::Enumeration { enumerants } && j
            < enumerants.len() && s@ == enumerants[j as int]),
{
    let e = BackendError::DecodeFailed;
    let root: code_generator_request::Reader = m.inner.get_root().map_err(|_| e)?;
    let nodes = root.get_nodes().map_err(|_| e)?;
    if i >= nodes.len() as usize { return Err(e); }
    let en = match nodes.get(i as u32).which() { Ok(node::Enum(x)) => x, _ => return Err(e) };
    let enumerants = en.get_enumerants().map_err(|_| e)?;
    if j >= enumerants.len() as usize { return Err(e); }
    let t = enumerants.get(j as u32).get_name().map_err(|_| e)?;
    t.to_string().map_err(|_| e)
}

} // verus!

// The verified conversion from the opaque message to the plain request.


verus! {

/// Reads the i-th node of the message into a plain `Node`. On success the
/// result is exactly the i-th node of the message's content.
fn read_node(m: &Wire, i: usize) -> (r: Result<Node, BackendError>)
    ensures
        r matches Ok(nd) ==> i < wire_request(*m).nodes.len() && nd@ == wire_request(
            *m,
        ).nodes[i as int],
{
    let ghost t = wire_request(*m).nodes[i as int];
    let id = wire_node_id(m, i)?;
    let display_name = wire_node_name(m, i)?;
    let scope_id = wire_node_scope(m, i)?;
    let kind = wire_node_kind(m, i)?;
    let nc = wire_nested_count(m, i)?;
    let mut nested: Vec<NestedRef> = Vec::new();
    let mut j: usize = 0;
    while j < nc
        invariant
            i < wire_request(*m).nodes.len(),
            t == wire_request(*m).nodes[i as int],
            nc == t.nested.len(),
            j <= nc,
            nested@.len() == j,
            forall|k: int| 0 <= k < j ==> #[trigger] nested@[k]@ == t.nested[k],
        decreases nc - j,
    {
        let name = wire_nested_name(m, i, j)?;
        let nid = wire_nested_id(m, i, j)?;
        nested.push(NestedRef { name, id: nid });
        j += 1;
    }
    let payload = match kind {
        NodeKind::File => Payload::File,
        NodeKind::Constant => Payload::Constant,
        NodeKind::Annotation => Payload::Annotation,
        NodeKind::Unknown(tag) => Payload::Unrecognized { tag },
        NodeKind::Struct => {
            let fc = wire_field_count(m, i)?;
            let mut fields: Vec<String> = Vec::new();
            let mut k: usize = 0;
            while k < fc
                invariant
                    i < wire_request(*m).nodes.len(),
                    t == wire_request(*m).nodes[i as int],
                    t.payload matches PayloadView::Struct { fields: tf } && fc == tf.len(),
                    k <= fc,
                    fields@.len() == k,
                    forall|q: int|
                        0 <= q < k ==> (t.payload matches PayloadView::Struct { fields: tf }
                            && #[trigger] fields@[q]@ == tf[q]),
                decreases fc - k,
            {
                let name = wire_field_name(m, i, k)?;
                fields.push(name);
                k += 1;
            }
            Payload::Struct { fields }
        },
        NodeKind::Interface => {
            let mc = wire_method_count(m, i)?;
            let mut methods: Vec<String> = Vec::new();
            let mut k: usize = 0;
            while k < mc
                invariant
                    i < wire_request(*m).nodes.len(),
                    t == wire_request(*m).nodes[i as int],
                    t.payload matches PayloadView::Interface { methods: tm } && mc == tm.len(),
                    k <= mc,
                    methods@.len() == k,
                    forall|q: int|
                        0 <= q < k ==> (t.payload matches PayloadView::Interface { methods: tm }
                            && #[trigger] methods@[q]@ == tm[q]),
                decreases mc - k,
            {
                let name = wire_method_name(m, i, k)?;
                methods.push(name);
                k += 1;
            }
            Payload::Interface { methods }
        },
        NodeKind::Enumeration => {
            let ec = wire_enumerant_count(m, i)?;
            let mut enumerants: Vec<String> = Vec::new();
            let mut k: usize = 0;
            while k < ec
                invariant
                    i < wire_request(*m).nodes.len(),
                    t == wire_request(*m).nodes[i as int],
                    t.payload matches PayloadView::Enumeration { enumerants: te } && ec
                        == te.len(),
                    k <= ec,
                    enumerants@.len() == k,
                    forall|q: int|
                        0 <= q < k ==> (t.payload matches PayloadView::Enumeration {
                            enumerants: te,
                        } && #[trigger] enumerants@[q]@ == te[q]),
                decreases ec - k,
            {
                let name = wire_enumerant_name(m, i, k)?;
                enumerants.push(name);
                k += 1;
            }
            Payload::Enumeration { enumerants }
        },
    };
    let nd = Node { id, display_name, scope_id, nested, payload };
    proof {
        assert(nd@.nested =~= t.nested);
        assert(nd@.payload =~~= t.payload);
        assert(nd@ =~~= t);
    }
    Ok(nd)
}

/// Converts a decoded message into the plain request. On success the result
/// is exactly the message's content: the same nodes in the same order, and
/// the same requested-file identifiers.
pub fn read_request(m: &Wire) -> (r: Result<Request, BackendError>)
    ensures
        r matches Ok(req) ==> req@ == wire_request(*m),
{
    let ghost t = wire_request(*m);
    let n = wire_node_count(m)?;
    let mut nodes: Vec<Node> = Vec::new();
    let mut i: usize = 0;
    while i < n
        invariant
            n == t.nodes.len(),
            t == wire_request(*m),
            i <= n,
            nodes@.len() == i,
            forall|k: int| 0 <= k < i ==> #[trigger] nodes@[k]@ == t.nodes[k],
        decreases n - i,
    {
        let nd = read_node(m, i)?;
        nodes.push(nd);
        i += 1;
    }
    let rc = wire_requested_count(m)?;
    let mut requested_files: Vec<u64> = Vec::new();
    let mut k: usize = 0;
    while k < rc
        invariant
            rc == t.requested_files.len(),
            t == wire_request(*m),
            k <= rc,
            requested_files@.len() == k,
            forall|q: int| 0 <= q < k ==> #[trigger] requested_files@[q] == t.requested_files[q],
        decreases rc - k,
    {
        let id = wire_requested_id(m, k)?;
        requested_files.push(id);
        k += 1;
    }
    let req = Request { nodes, requested_files };
    proof {
        assert(req@.nodes =~= t.nodes);
        assert(req@.requested_files =~= t.requested_files);
        assert(req@ =~~= t);
    }
    Ok(req)
}

/// Decodes one wire message from the byte buffer and converts it into the
/// plain request. Bytes that hold no well-formed message always fail with
/// `DecodeFailed`; on success the request is exactly the content the bytes
/// encode, so decoding the same bytes twice yields equal requests.
pub fn decode_request(bytes: &Vec<u8>) -> (r: Result<Request, BackendError>)
    ensures
        r matches Ok(req) ==> wire_ok(bytes@) && req@ == request_of(bytes@),
        !wire_ok(bytes@) ==> (r matches Err(e) && e == BackendError::DecodeFailed),
{
    let m = match wire_decode(bytes) {
        Ok(m) => m,
        Err(e) => {
            return Err(e);
        },
    };
    let req = match read_request(&m) {
        Ok(req) => req,
        Err(e) => {
            return Err(e);
        },
    };
    proof {
        assert(req@ == wire_request(m) && wire_request(m) == request_of(bytes@));
    }
    Ok(req)
}

} // verus!
