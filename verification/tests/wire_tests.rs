//! Wire decoder tests against real encoded messages: the decoded request
//! matches what was encoded, decoding the same bytes twice yields equal node
//! index contents, and malformed input is rejected rather than crashing.

use capnp::message;
use capnp::schema_capnp::code_generator_request;
use capnp::serialize;

use capnp_backend::backend::run_backend;
use capnp_backend::emit::Declaration;
use capnp_backend::index::NodeIndex;
use capnp_backend::model::{BackendError, Payload};
use capnp_backend::wire::decode_request;

fn point_request_bytes() -> Vec<u8> {
    let mut msg = message::Builder::new_default();
    {
        let root = msg.init_root::<code_generator_request::Builder>();
        let mut nodes = root.init_nodes(2);
        {
            let mut f = nodes.reborrow().get(0);
            f.set_id(1);
            f.set_display_name("a.capnp");
            f.set_scope_id(0);
            f.set_file(());
            let mut nn = f.init_nested_nodes(1);
            let mut entry = nn.reborrow().get(0);
            entry.set_name("Point");
            entry.set_id(2);
        }
        {
            let mut s = nodes.reborrow().get(1);
            s.set_id(2);
            s.set_display_name("a.capnp:Point");
            s.set_scope_id(1);
            s.init_struct();
        }
    }
    {
        let root = msg.get_root::<code_generator_request::Builder>().unwrap();
        let mut rf = root.init_requested_files(1);
        rf.reborrow().get(0).set_id(1);
    }
    serialize::write_message_to_words(&msg)
}

#[test]
fn decoded_request_matches_encoding() {
    let bytes = point_request_bytes();
    let req = decode_request(&bytes).unwrap();
    assert_eq!(req.requested_files, vec![1]);
    assert_eq!(req.nodes.len(), 2);
    assert_eq!(req.nodes[0].id, 1);
    assert_eq!(req.nodes[0].display_name, "a.capnp");
    assert_eq!(req.nodes[0].scope_id, 0);
    assert_eq!(req.nodes[0].payload, Payload::File);
    assert_eq!(req.nodes[0].nested.len(), 1);
    assert_eq!(req.nodes[0].nested[0].name, "Point");
    assert_eq!(req.nodes[0].nested[0].id, 2);
    assert_eq!(req.nodes[1].id, 2);
    assert_eq!(req.nodes[1].display_name, "a.capnp:Point");
    assert_eq!(req.nodes[1].scope_id, 1);
    assert_eq!(req.nodes[1].payload, Payload::Struct { fields: vec![] });
}

#[test]
fn decoding_twice_yields_equal_index_contents() {
    // Decoding the same byte stream twice yields node index contents that
    // compare equal: same identifiers, same kinds, same nested-node lists.
    let bytes = point_request_bytes();
    let first = decode_request(&bytes).unwrap();
    let second = decode_request(&bytes).unwrap();
    assert_eq!(first, second);
    let idx_a = NodeIndex::build(first).unwrap();
    let idx_b = NodeIndex::build(second).unwrap();
    assert_eq!(idx_a.nodes, idx_b.nodes);
    for n in &idx_a.nodes {
        assert_eq!(idx_a.lookup(n.id), idx_b.lookup(n.id));
    }
}

#[test]
fn whole_pipeline_on_encoded_message() {
    let bytes = point_request_bytes();
    let outs = run_backend(&bytes).unwrap();
    assert_eq!(outs.len(), 1);
    assert_eq!(outs[0].file_id, 1);
    let unit = outs[0].outcome.as_ref().unwrap();
    assert_eq!(
        unit.decls,
        vec![Declaration::StructDecl { name: "a.capnp:Point".to_string(), fields: vec![] }]
    );
}

#[test]
fn truncated_message_is_rejected() {
    let mut bytes = point_request_bytes();
    bytes.truncate(bytes.len() - 5);
    assert_eq!(decode_request(&bytes).unwrap_err(), BackendError::DecodeFailed);
}

#[test]
fn empty_input_is_rejected() {
    let bytes: Vec<u8> = Vec::new();
    assert_eq!(decode_request(&bytes).unwrap_err(), BackendError::DecodeFailed);
}

#[test]
fn payload_lists_survive_decoding() {
    // A struct with fields, an interface with a method and an enumeration
    // with enumerants, all encoded and decoded back: the per-kind payload
    // lists come through with the recorded names, in order.
    let mut msg = message::Builder::new_default();
    {
        let root = msg.init_root::<code_generator_request::Builder>();
        let mut nodes = root.init_nodes(4);
        {
            let mut f = nodes.reborrow().get(0);
            f.set_id(1);
            f.set_display_name("a.capnp");
            f.set_file(());
            let mut nn = f.init_nested_nodes(3);
            nn.reborrow().get(0).set_name("Point");
            nn.reborrow().get(0).set_id(2);
            nn.reborrow().get(1).set_name("Color");
            nn.reborrow().get(1).set_id(3);
            nn.reborrow().get(2).set_name("Ping");
            nn.reborrow().get(2).set_id(4);
        }
        {
            let mut s = nodes.reborrow().get(1);
            s.set_id(2);
            s.set_display_name("a.capnp:Point");
            s.set_scope_id(1);
            let st = s.init_struct();
            let mut fields = st.init_fields(2);
            fields.reborrow().get(0).set_name("x");
            fields.reborrow().get(1).set_name("y");
        }
        {
            let mut en = nodes.reborrow().get(2);
            en.set_id(3);
            en.set_display_name("a.capnp:Color");
            en.set_scope_id(1);
            let e = en.init_enum();
            let mut enumerants = e.init_enumerants(2);
            enumerants.reborrow().get(0).set_name("red");
            enumerants.reborrow().get(1).set_name("green");
        }
        {
            let mut it = nodes.reborrow().get(3);
            it.set_id(4);
            it.set_display_name("a.capnp:Ping");
            it.set_scope_id(1);
            let i = it.init_interface();
            let mut methods = i.init_methods(1);
            methods.reborrow().get(0).set_name("ping");
        }
    }
    {
        let root = msg.get_root::<code_generator_request::Builder>().unwrap();
        let mut rf = root.init_requested_files(1);
        rf.reborrow().get(0).set_id(1);
    }
    let bytes = serialize::write_message_to_words(&msg);
    let req = decode_request(&bytes).unwrap();
    assert_eq!(
        req.nodes[1].payload,
        Payload::Struct { fields: vec!["x".to_string(), "y".to_string()] }
    );
    assert_eq!(
        req.nodes[2].payload,
        Payload::Enumeration { enumerants: vec!["red".to_string(), "green".to_string()] }
    );
    assert_eq!(req.nodes[3].payload, Payload::Interface { methods: vec!["ping".to_string()] });
    let outs = run_backend(&bytes).unwrap();
    let unit = outs[0].outcome.as_ref().unwrap();
    assert_eq!(unit.decls.len(), 3);
    assert_eq!(
        unit.decls[0],
        Declaration::StructDecl {
            name: "a.capnp:Point".to_string(),
            fields: vec!["x".to_string(), "y".to_string()]
        }
    );
    assert_eq!(
        unit.decls[1],
        Declaration::EnumDecl {
            name: "a.capnp:Color".to_string(),
            enumerants: vec!["red".to_string(), "green".to_string()]
        }
    );
    assert_eq!(
        unit.decls[2],
        Declaration::InterfaceDecl {
            name: "a.capnp:Ping".to_string(),
            methods: vec!["ping".to_string()]
        }
    );
}
