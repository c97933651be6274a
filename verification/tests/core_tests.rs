//! Scenario tests over plain requests: index construction, traversal,
//! emission dispatch, and the frontend driver's command line.

use capnp_backend::backend::process_request;
use capnp_backend::driver::{build_frontend_args, check_frontend_status, retry_read};
use capnp_backend::emit::{emit_file, Declaration};
use capnp_backend::index::NodeIndex;
use capnp_backend::model::{BackendError, NestedRef, Node, Payload, Request};
use capnp_backend::traverse::traverse_file;

fn node(id: u64, name: &str, scope: u64, nested: Vec<(&str, u64)>, payload: Payload) -> Node {
    Node {
        id,
        display_name: name.to_string(),
        scope_id: scope,
        nested: nested
            .into_iter()
            .map(|(n, i)| NestedRef { name: n.to_string(), id: i })
            .collect(),
        payload,
    }
}

fn strings(v: Vec<&str>) -> Vec<String> {
    v.into_iter().map(|s| s.to_string()).collect()
}

#[test]
fn scenario_one_file_one_struct() {
    // One requested file containing one nested struct "Point" with no fields:
    // traversal visits the struct, emission produces exactly one struct
    // declaration named "Point" with zero fields in file 1's unit.
    let req = Request {
        nodes: vec![
            node(1, "a.capnp", 0, vec![("Point", 2)], Payload::File),
            node(2, "Point", 1, vec![], Payload::Struct { fields: vec![] }),
        ],
        requested_files: vec![1],
    };
    let idx = NodeIndex::build(req).unwrap();
    let order = traverse_file(&idx, 1).unwrap();
    assert_eq!(order, vec![1, 2]);
    let unit = emit_file(&idx, 1).unwrap();
    assert_eq!(unit.file_id, 1);
    assert_eq!(
        unit.decls,
        vec![Declaration::StructDecl { name: "Point".to_string(), fields: vec![] }]
    );
}

#[test]
fn scenario_missing_nested_node() {
    // The file references id 99, which no node carries: traversal fails with
    // MissingNode(99) and no unit is handed back for the file.
    let req = Request {
        nodes: vec![node(1, "a.capnp", 0, vec![("Gone", 99)], Payload::File)],
        requested_files: vec![1],
    };
    let idx = NodeIndex::build(req.clone()).unwrap();
    assert_eq!(traverse_file(&idx, 1).unwrap_err(), BackendError::MissingNode(99));
    assert_eq!(emit_file(&idx, 1).unwrap_err(), BackendError::MissingNode(99));
    let outs = process_request(req).unwrap();
    assert_eq!(outs.len(), 1);
    assert_eq!(outs[0].file_id, 1);
    assert_eq!(outs[0].outcome.as_ref().unwrap_err(), &BackendError::MissingNode(99));
}

#[test]
fn scenario_const_and_enum_siblings() {
    // A constant and an enumeration nested side by side: both are visited and
    // dispatched exactly once, in the order the front-end recorded.
    let req = Request {
        nodes: vec![
            node(1, "a.capnp", 0, vec![("c", 3), ("E", 4)], Payload::File),
            node(3, "a.capnp:c", 1, vec![], Payload::Constant),
            node(
                4,
                "a.capnp:E",
                1,
                vec![],
                Payload::Enumeration { enumerants: strings(vec!["red", "green"]) },
            ),
        ],
        requested_files: vec![1],
    };
    let idx = NodeIndex::build(req).unwrap();
    let order = traverse_file(&idx, 1).unwrap();
    assert_eq!(order, vec![1, 3, 4]);
    let unit = emit_file(&idx, 1).unwrap();
    assert_eq!(
        unit.decls,
        vec![
            Declaration::ConstDecl { name: "a.capnp:c".to_string() },
            Declaration::EnumDecl {
                name: "a.capnp:E".to_string(),
                enumerants: strings(vec!["red", "green"])
            },
        ]
    );
}

#[test]
fn duplicate_identifier_rejected() {
    // Two distinct nodes share id 7: index construction always fails with
    // DuplicateIdentifier; with unique ids it succeeds.
    let dup = Request {
        nodes: vec![
            node(1, "a.capnp", 0, vec![], Payload::File),
            node(7, "a.capnp:X", 1, vec![], Payload::Constant),
            node(7, "a.capnp:Y", 1, vec![], Payload::Constant),
        ],
        requested_files: vec![1],
    };
    assert_eq!(NodeIndex::build(dup).unwrap_err(), BackendError::DuplicateIdentifier(7));
    let ok = Request {
        nodes: vec![
            node(1, "a.capnp", 0, vec![], Payload::File),
            node(7, "a.capnp:X", 1, vec![], Payload::Constant),
            node(8, "a.capnp:Y", 1, vec![], Payload::Constant),
        ],
        requested_files: vec![1],
    };
    assert!(NodeIndex::build(ok).is_ok());
}

#[test]
fn traversal_visits_each_reachable_node_once() {
    // Three levels of nesting: every node reachable from the file appears in
    // the visitation order exactly once, parents before their children.
    let req = Request {
        nodes: vec![
            node(1, "a.capnp", 0, vec![("A", 2), ("B", 3)], Payload::File),
            node(
                2,
                "a.capnp:A",
                1,
                vec![("Inner", 4)],
                Payload::Struct { fields: strings(vec!["x", "y"]) },
            ),
            node(3, "a.capnp:B", 1, vec![], Payload::Interface { methods: strings(vec!["ping"]) }),
            node(4, "a.capnp:A.Inner", 2, vec![], Payload::Struct { fields: vec![] }),
            node(9, "unreachable", 0, vec![], Payload::Constant),
        ],
        requested_files: vec![1],
    };
    let idx = NodeIndex::build(req).unwrap();
    let order = traverse_file(&idx, 1).unwrap();
    assert_eq!(order, vec![1, 2, 4, 3]);
    let mut sorted = order.clone();
    sorted.sort();
    sorted.dedup();
    assert_eq!(sorted.len(), order.len());
    assert!(!order.contains(&9));
}

#[test]
fn cycle_is_detected() {
    // A node whose nested list points back at the file: the walk observes the
    // file still in progress and fails with CycleDetected.
    let req = Request {
        nodes: vec![
            node(1, "a.capnp", 0, vec![("A", 2)], Payload::File),
            node(2, "a.capnp:A", 1, vec![("back", 1)], Payload::Struct { fields: vec![] }),
        ],
        requested_files: vec![1],
    };
    let idx = NodeIndex::build(req).unwrap();
    assert_eq!(traverse_file(&idx, 1).unwrap_err(), BackendError::CycleDetected(1));
}

#[test]
fn unknown_kind_is_rejected_not_skipped() {
    // A nested node carries an unrecognized kind discriminant: emission fails
    // with UnsupportedNodeKind naming the node instead of skipping it.
    let req = Request {
        nodes: vec![
            node(1, "a.capnp", 0, vec![("weird", 5)], Payload::File),
            node(5, "a.capnp:weird", 1, vec![], Payload::Unrecognized { tag: 7 }),
        ],
        requested_files: vec![1],
    };
    let idx = NodeIndex::build(req).unwrap();
    assert_eq!(traverse_file(&idx, 1).unwrap(), vec![1, 5]);
    assert_eq!(emit_file(&idx, 1).unwrap_err(), BackendError::UnsupportedNodeKind(5));
}

#[test]
fn failure_is_per_file_not_global() {
    // Two requested files, the second with a dangling reference: the first
    // file's unit is still produced and valid.
    let req = Request {
        nodes: vec![
            node(1, "a.capnp", 0, vec![("Point", 2)], Payload::File),
            node(2, "a.capnp:Point", 1, vec![], Payload::Struct { fields: vec![] }),
            node(10, "b.capnp", 0, vec![("Gone", 99)], Payload::File),
        ],
        requested_files: vec![1, 10],
    };
    let outs = process_request(req).unwrap();
    assert_eq!(outs.len(), 2);
    assert!(outs[0].outcome.is_ok());
    assert_eq!(outs[1].outcome.as_ref().unwrap_err(), &BackendError::MissingNode(99));
}

#[test]
fn frontend_command_line_is_exact() {
    // Two schema files and one import path: both files appear positionally
    // and exactly one --import-path flag is present.
    let args = build_frontend_args(
        false,
        &strings(vec!["/inc"]),
        &strings(vec![]),
        &strings(vec!["a.capnp", "b.capnp"]),
    );
    assert_eq!(
        args,
        strings(vec!["compile", "-o", "-", "--import-path=/inc", "a.capnp", "b.capnp"])
    );
    assert_eq!(args.iter().filter(|a| a.as_str() == "--import-path=/inc").count(), 1);
    let all = build_frontend_args(
        true,
        &strings(vec!["/inc"]),
        &strings(vec!["/src"]),
        &strings(vec!["a.capnp"]),
    );
    assert_eq!(
        all,
        strings(vec![
            "compile",
            "-o",
            "-",
            "--no-standard-import",
            "--import-path=/inc",
            "--src-prefix=/src",
            "a.capnp"
        ])
    );
}

#[test]
fn frontend_status_gate() {
    // A zero exit lets the bytes through; any other status is surfaced as
    // FrontendExit with that status and the decoder is never reached.
    assert!(check_frontend_status(0).is_ok());
    assert_eq!(check_frontend_status(1).unwrap_err(), BackendError::FrontendExit(1));
    assert_eq!(check_frontend_status(3).unwrap_err(), BackendError::FrontendExit(3));
}

#[test]
fn transient_read_interruption_is_retried() {
    // Only the transient "interrupted" condition is recovered; every other
    // read failure is surfaced.
    assert!(retry_read(true));
    assert!(!retry_read(false));
}
