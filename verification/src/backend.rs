//! The single pipeline of one invocation: decode the wire bytes into a
//! request, build the node index once, then traverse and emit each requested
//! top-level file independently. A failure on one file leaves the other
//! files' output units valid; only a duplicate identifier (or an undecodable
//! message) aborts the whole run.

use vstd::prelude::*;

use crate::emit::{emit_clean, emit_failure, emit_file, OutputUnit};
use crate::index::{index_of, unique_ids, NodeIndex};
use crate::model::{BackendError, Request};
use crate::wire::{decode_request, request_of, wire_ok};

verus! {

/// The emission outcome for one requested top-level file.
pub struct FileOutcome {
    pub file_id: u64,
    pub outcome: Result<OutputUnit, BackendError>,
}

/// Builds the node index and emits every requested file, in order. Fails as
/// a whole only with `DuplicateIdentifier`, exactly when the request's node
/// identifiers are not unique; per-file traversal or dispatch failures stay
/// inside that file's outcome.
pub fn process_request(req: Request) -> (r: Result<Vec<FileOutcome>, BackendError>)
    ensures
        r matches Ok(outs) ==> unique_ids(req@.nodes) && outs@.len()
            == req@.requested_files.len() && forall|k: int|
            0 <= k < outs@.len() ==> (#[trigger] outs@[k].file_id == req@.requested_files[k] && (
            outs@[k].outcome matches Ok(u) ==> u.file_id == req@.requested_files[k]) && (
            outs@[k].outcome matches Err(e) ==> emit_failure(
                index_of(req@.nodes),
                req@.requested_files[k],
                e,
            )) && (emit_clean(index_of(req@.nodes), req@.requested_files[k])
                ==> outs@[k].outcome is Ok)),
        r matches Err(e) ==> e matches BackendError::DuplicateIdentifier(_) && !unique_ids(
            req@.nodes,
        ),
{
    let mut files: Vec<u64> = Vec::new();
    let mut k: usize = 0;
    while k < req.requested_files.len()
        invariant
            k <= req.requested_files@.len(),
            files@ == req.requested_files@.take(k as int),
        decreases req.requested_files@.len() - k,
    {
        files.push(req.requested_files[k]);
        proof {
            assert(files@ =~= req.requested_files@.take(k + 1));
        }
        k += 1;
    }
    proof {
        assert(files@ =~= req.requested_files@);
        assert(req.requested_files@ == req@.requested_files);
    }
    let idx = match NodeIndex::build(req) {
        Ok(idx) => idx,
        Err(e) => {
            return Err(e);
        },
    };
    let mut outs: Vec<FileOutcome> = Vec::new();
    let mut i: usize = 0;
    while i < files.len()
        invariant
            idx.wf(),
            i <= files@.len(),
            outs@.len() == i,
            idx@ == index_of(req@.nodes),
            forall|q: int|
                0 <= q < i ==> (#[trigger] outs@[q].file_id == files@[q] && (
                outs@[q].outcome matches Ok(u) ==> u.file_id == files@[q]) && (
                outs@[q].outcome matches Err(e) ==> emit_failure(idx@, files@[q], e)) && (
                emit_clean(idx@, files@[q]) ==> outs@[q].outcome is Ok)),
        decreases files@.len() - i,
    {
        let fid = files[i];
        let outcome = emit_file(&idx, fid);
        let ghost o0 = outs@;
        outs.push(FileOutcome { file_id: fid, outcome });
        proof {
            assert forall|q: int| 0 <= q < i + 1 implies (#[trigger] outs@[q].file_id == files@[q]
                && (outs@[q].outcome matches Ok(u) ==> u.file_id == files@[q]) && (
            outs@[q].outcome matches Err(e) ==> emit_failure(idx@, files@[q], e)) && (emit_clean(
                idx@,
                files@[q],
            ) ==> outs@[q].outcome is Ok)) by {
                if q < i {
                    assert(outs@[q] == o0[q]);
                    assert(o0[q].file_id == files@[q]);
                } else {
                    assert(outs@[q].outcome == outcome);
                    if outcome is Err {
                        let e = choose|e: BackendError| outcome == Err::<OutputUnit, BackendError>(e);
                        assert(emit_failure(idx@, files@[q], e));
                    }
                }
            }
        }
        i += 1;
    }
    Ok(outs)
}

/// The whole backend on one byte stream: decode, index, traverse and emit.
/// Bytes that do not decode always fail with `DecodeFailed`; on success the
/// outcomes follow the decoded content of the bytes, one per requested file,
/// each failure naming a real witness in that file's reachable graph.
pub fn run_backend(bytes: &Vec<u8>) -> (r: Result<Vec<FileOutcome>, BackendError>)
    ensures
        r matches Err(e) ==> (e matches BackendError::DecodeFailed
            || e matches BackendError::DuplicateIdentifier(_)),
        !wire_ok(bytes@) ==> (r matches Err(e) && e == BackendError::DecodeFailed),
        (r matches Err(e) && e matches BackendError::DuplicateIdentifier(_)) ==> wire_ok(
            bytes@,
        ) && !unique_ids(request_of(bytes@).nodes),
        r matches Ok(outs) ==> wire_ok(bytes@) && unique_ids(request_of(bytes@).nodes)
            && outs@.len() == request_of(bytes@).requested_files.len() && forall|k: int|
            0 <= k < outs@.len() ==> (#[trigger] outs@[k].file_id == request_of(
                bytes@,
            ).requested_files[k] && (outs@[k].outcome matches Err(e) ==> emit_failure(
                index_of(request_of(bytes@).nodes),
                request_of(bytes@).requested_files[k],
                e,
            )) && (emit_clean(
                index_of(request_of(bytes@).nodes),
                request_of(bytes@).requested_files[k],
            ) ==> outs@[k].outcome is Ok)),
{
    let req = match decode_request(bytes) {
        Ok(req) => req,
        Err(_) => {
            return Err(BackendError::DecodeFailed);
        },
    };
    let ghost reqg = req;
    match process_request(req) {
        Ok(outs) => {
            proof {
                assert(reqg@ == request_of(bytes@));
            }
            Ok(outs)
        },
        Err(e) => Err(e),
    }
}

} // verus!
