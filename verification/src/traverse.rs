//! Graph Traversal Engine: a depth-first, pre-order walk of the nesting
//! structure starting at a requested top-level file. Every node carries a
//! per-run tri-state mark; a dangling reference reachable from the file fails
//! with `MissingNode` of exactly that identifier, a node observed while still
//! in progress fails with `CycleDetected` of a node that really lies on a
//! reachable nesting cycle, and on a file whose reachable references all
//! resolve and whose reachable nesting is acyclic the walk always succeeds,
//! visiting every reachable node exactly once.

use vstd::prelude::*;

use crate::index::NodeIndex;
use crate::model::BackendError;
use crate::model::NodeView;

verus! {

/// Per-run, per-node visitation mark; discarded after traversal completes.
#[derive(Clone, Copy, PartialEq, Eq, Debug, Structural)]
pub enum VisitState {
    Unvisited,
    InProgress,
    Done,
}

/// Whether `to` is reachable from `from` through nested-node chains of at
/// most `fuel` steps. Every intermediate node must resolve in the index; the
/// endpoint `to` itself need not.
pub open spec fn reaches(idx: Map<u64, NodeView>, from: u64, to: u64, fuel: nat) -> bool
    decreases fuel,
{
    from == to || (fuel > 0 && idx.contains_key(from) && exists|q: int|
        0 <= q < idx[from].nested.len() && reaches(
            idx,
            #[trigger] idx[from].nested[q].id,
            to,
            (fuel - 1) as nat,
        ))
}

/// Whether `to` is reachable from `from` in any number of steps.
pub open spec fn reachable(idx: Map<u64, NodeView>, from: u64, to: u64) -> bool {
    exists|f: nat| reaches(idx, from, to, f)
}

/// `id` lies on a nesting cycle: one of its own nested references leads back
/// to it.
pub open spec fn on_cycle(idx: Map<u64, NodeView>, id: u64) -> bool {
    idx.contains_key(id) && exists|q: int, f: nat|
        0 <= q < idx[id].nested.len() && #[trigger] reaches(idx, idx[id].nested[q].id, id, f)
}

/// What a traversal failure from `root` certifies: a missing node really is
/// an identifier reachable from the root and absent from the index, and a
/// detected cycle really is a reachable node lying on a nesting cycle.
pub open spec fn traverse_failure(idx: Map<u64, NodeView>, root: u64, e: BackendError) -> bool {
    match e {
        BackendError::MissingNode(mid) => reachable(idx, root, mid) && !idx.contains_key(mid),
        BackendError::CycleDetected(cid) => reachable(idx, root, cid) && on_cycle(idx, cid),
        _ => false,
    }
}

/// Every identifier reachable from `root` resolves in the index, and no
/// reachable node lies on a nesting cycle: the shape §4.3 owes success on.
pub open spec fn file_clean(idx: Map<u64, NodeView>, root: u64) -> bool {
    &&& forall|mid: u64, f: nat| reaches(idx, root, mid, f) ==> idx.contains_key(mid)
    &&& forall|cid: u64, f: nat| reaches(idx, root, cid, f) ==> !on_cycle(idx, cid)
}

/// Reaching one step further: a nested reference of a reachable, resolving
/// node is itself reachable.
proof fn lemma_reaches_extend(idx: Map<u64, NodeView>, a: u64, x: u64, f: nat, q: int)
    requires
        reaches(idx, a, x, f),
        idx.contains_key(x),
        0 <= q < idx[x].nested.len(),
    ensures
        reaches(idx, a, idx[x].nested[q].id, (f + 1) as nat),
    decreases f,
{
    if a == x {
        assert(reaches(idx, idx[x].nested[q].id, idx[x].nested[q].id, f));
    } else {
        let q0 = choose|q0: int|
            0 <= q0 < idx[a].nested.len() && reaches(idx, idx[a].nested[q0].id, x, (f - 1) as nat);
        lemma_reaches_extend(idx, idx[a].nested[q0].id, x, (f - 1) as nat, q);
        assert(reaches(idx, idx[a].nested[q0].id, idx[x].nested[q].id, f));
    }
}

/// Along a chain whose every link is a nested reference, the last element is
/// reachable from each earlier one.
proof fn lemma_chain_reaches(idx: Map<u64, NodeView>, chain: Seq<u64>, j: int)
    requires
        0 <= j < chain.len(),
        forall|t: int| 0 <= t < chain.len() ==> idx.contains_key(#[trigger] chain[t]),
        forall|t: int|
            0 <= t < chain.len() - 1 ==> exists|q: int|
                0 <= q < idx[#[trigger] chain[t]].nested.len() && idx[chain[t]].nested[q].id
                    == chain[t + 1],
    ensures
        reaches(idx, chain[j], chain[chain.len() - 1], (chain.len() - 1 - j) as nat),
    decreases chain.len() - j,
{
    if j < chain.len() - 1 {
        lemma_chain_reaches(idx, chain, j + 1);
        let q = choose|q: int|
            0 <= q < idx[chain[j]].nested.len() && idx[chain[j]].nested[q].id == chain[j + 1];
        assert(reaches(idx, idx[chain[j]].nested[q].id, chain[chain.len() - 1], (chain.len() - 2
            - j) as nat));
    }
}

/// How many slots are still unvisited.
pub open spec fn num_unvisited(s: Seq<VisitState>) -> nat
    decreases s.len(),
{
    if s.len() == 0 {
        0
    } else {
        num_unvisited(s.drop_last()) + if s.last() is Unvisited {
            1nat
        } else {
            0nat
        }
    }
}

proof fn lemma_unvisited_le(a: Seq<VisitState>, b: Seq<VisitState>)
    requires
        a.len() == b.len(),
        forall|k: int| 0 <= k < b.len() ==> (b[k] is Unvisited ==> a[k] is Unvisited),
    ensures
        num_unvisited(b) <= num_unvisited(a),
    decreases a.len(),
{
    if a.len() > 0 {
        assert forall|k: int|
            0 <= k < b.drop_last().len() implies (b.drop_last()[k] is Unvisited
            ==> a.drop_last()[k] is Unvisited) by {
            assert(b.drop_last()[k] == b[k] && a.drop_last()[k] == a[k]);
        }
        lemma_unvisited_le(a.drop_last(), b.drop_last());
    }
}

proof fn lemma_unvisited_update(s: Seq<VisitState>, k: int, v: VisitState)
    requires
        0 <= k < s.len(),
        s[k] is Unvisited,
        !(v is Unvisited),
    ensures
        num_unvisited(s.update(k, v)) < num_unvisited(s),
    decreases s.len(),
{
    let t = s.update(k, v);
    if k == s.len() - 1 {
        assert(t.drop_last() =~= s.drop_last());
    } else {
        assert(t.drop_last() =~= s.drop_last().update(k, v));
        lemma_unvisited_update(s.drop_last(), k, v);
    }
}

/// The arena slot an identifier resolves to.
pub open spec fn slot_of(idx: NodeIndex, id: u64) -> int {
    idx.slots@[id] as int
}

/// Every nested reference of node `n` resolves and is already fully visited.
pub open spec fn children_done(idx: NodeIndex, state: Seq<VisitState>, n: NodeView) -> bool {
    forall|q: int|
        0 <= q < n.nested.len() ==> idx@.contains_key(#[trigger] n.nested[q].id) && state[slot_of(
            idx,
            n.nested[q].id,
        )] is Done
}

/// The traversal invariant tying the marks to the visitation order: the
/// order repeats nothing, each of its members resolves and is marked, each
/// marked node is in the order, and a finished node's nested references are
/// finished too.
pub open spec fn marks_ok(idx: NodeIndex, state: Seq<VisitState>, order: Seq<u64>) -> bool {
    &&& state.len() == idx.nodes@.len()
    &&& forall|p: int, q: int| 0 <= p < q < order.len() ==> order[p] != order[q]
    &&& forall|p: int|
        0 <= p < order.len() ==> idx@.contains_key(#[trigger] order[p]) && !(state[slot_of(
            idx,
            order[p],
        )] is Unvisited)
    &&& forall|k: int|
        0 <= k < state.len() && !(#[trigger] state[k] is Unvisited) ==> order.contains(
            idx.nodes@[k]@.id,
        )
    &&& forall|k: int|
        0 <= k < state.len() && #[trigger] state[k] is Done ==> children_done(
            idx,
            state,
            idx.nodes@[k]@,
        )
}

/// Marks only harden: a finished node stays finished, and the set of
/// in-progress nodes is unchanged.
pub open spec fn marks_monotone(a: Seq<VisitState>, b: Seq<VisitState>) -> bool {
    &&& a.len() == b.len()
    &&& forall|k: int|
        0 <= k < a.len() ==> ((#[trigger] a[k] is Done ==> b[k] is Done) && (a[k] is InProgress
            <==> b[k] is InProgress))
}

proof fn lemma_monotone_unvisited_le(a: Seq<VisitState>, b: Seq<VisitState>)
    requires
        marks_monotone(a, b),
    ensures
        num_unvisited(b) <= num_unvisited(a),
{
    assert forall|k: int| 0 <= k < b.len() implies (b[k] is Unvisited ==> a[k] is Unvisited) by {
        if b[k] is Unvisited {
            assert(!(b[k] is Done) && !(b[k] is InProgress));
        }
    }
    lemma_unvisited_le(a, b);
}

/// Every marked node is reachable from the root.
pub open spec fn marked_reachable(idx: NodeIndex, state: Seq<VisitState>, root: u64) -> bool {
    forall|k: int|
        0 <= k < state.len() && !(#[trigger] state[k] is Unvisited) ==> reachable(
            idx@,
            root,
            idx.nodes@[k]@.id,
        )
}

/// The in-progress marks are exactly the ghost ancestor chain `stack`: each
/// element resolves, is reachable from the root and marked in progress, each
/// link is a recorded nested reference, and nothing else is in progress.
pub open spec fn stack_ok(
    idx: NodeIndex,
    state: Seq<VisitState>,
    root: u64,
    stack: Seq<u64>,
) -> bool {
    &&& forall|t: int| 0 <= t < stack.len() ==> idx@.contains_key(#[trigger] stack[t])
    &&& forall|t: int| 0 <= t < stack.len() ==> reachable(idx@, root, #[trigger] stack[t])
    &&& forall|t: int|
        0 <= t < stack.len() ==> state[slot_of(idx, #[trigger] stack[t])] is InProgress
    &&& forall|k: int|
        0 <= k < state.len() && #[trigger] state[k] is InProgress ==> stack.contains(
            idx.nodes@[k]@.id,
        )
    &&& forall|t: int|
        0 <= t < stack.len() - 1 ==> exists|q: int|
            0 <= q < idx@[#[trigger] stack[t]].nested.len() && idx@[stack[t]].nested[q].id
                == stack[t + 1]
}

/// Visits the node `id` and, depth-first and in recorded order, everything
/// nested under it, appending each newly entered node to `order` before its
/// children (pre-order). `root` is the requested file this walk serves;
/// `stack` is the chain of ancestors still in progress.
#[verifier::loop_isolation(false)]
fn visit(
    idx: &NodeIndex,
    state: &mut Vec<VisitState>,
    order: &mut Vec<u64>,
    id: u64,
    Ghost(root): Ghost<u64>,
    Ghost(stack): Ghost<Seq<u64>>,
) -> (r: Result<(), BackendError>)
    requires
        idx.wf(),
        marks_ok(*idx, old(state)@, old(order)@),
        marked_reachable(*idx, old(state)@, root),
        reachable(idx@, root, id),
        stack_ok(*idx, old(state)@, root, stack),
        stack.len() > 0 ==> exists|q: int|
            0 <= q < idx@[stack[stack.len() - 1]].nested.len() && #[trigger] idx@[stack[stack.len()
                - 1]].nested[q].id == id,
    ensures
        final(state)@.len() == old(state)@.len(),
        r matches Ok(_) ==> {
            &&& marks_ok(*idx, final(state)@, final(order)@)
            &&& marks_monotone(old(state)@, final(state)@)
            &&& marked_reachable(*idx, final(state)@, root)
            &&& stack_ok(*idx, final(state)@, root, stack)
            &&& idx@.contains_key(id)
            &&& final(state)@[slot_of(*idx, id)] is Done
            &&& final(order)@.len() >= old(order)@.len()
            &&& final(order)@.take(old(order)@.len() as int) == old(order)@
            &&& (old(state)@[slot_of(*idx, id)] is Unvisited ==> final(order)@.len() > old(
                order,
            )@.len() && final(order)@[old(order)@.len() as int] == id)
        },
        r matches Err(e) ==> traverse_failure(idx@, root, e),
    decreases num_unvisited(old(state)@),
{
    let ghost s0 = old(state)@;
    let slot = match idx.slot(id) {
        Some(s) => s,
        None => {
            return Err(BackendError::MissingNode(id));
        },
    };
    match state[slot] {
        VisitState::Done => {
            proof {
                assert(marks_monotone(s0, state@));
                assert(order@.take(order@.len() as int) =~= order@);
            }
            return Ok(());
        },
        VisitState::InProgress => {
            proof {
                // id is in progress, so it sits on the ancestor chain: the
                // chain from there down to the current parent, closed by the
                // parent's reference back to id, is a nesting cycle
                assert(stack.contains(id)) by {
                    assert(s0[slot as int] is InProgress);
                    assert(idx.nodes@[slot as int]@.id == id);
                }
                let j = choose|j: int| 0 <= j < stack.len() && stack[j] == id;
                let last = stack.len() - 1;
                let ql = choose|q: int|
                    0 <= q < idx@[stack[last]].nested.len() && idx@[stack[last]].nested[q].id
                        == id;
                if j == last {
                    assert(reaches(idx@, idx@[id].nested[ql].id, id, 0));
                    assert(on_cycle(idx@, id));
                } else {
                    lemma_chain_reaches(idx@, stack, j + 1);
                    lemma_reaches_extend(idx@, stack[j + 1], stack[last], (last - (j + 1)) as nat, ql);
                    let qc = choose|q: int|
                        0 <= q < idx@[stack[j]].nested.len() && idx@[stack[j]].nested[q].id
                            == stack[j + 1];
                    assert(reaches(idx@, idx@[id].nested[qc].id, id, (last - (j + 1) + 1) as nat));
                    assert(on_cycle(idx@, id));
                }
            }
            return Err(BackendError::CycleDetected(id));
        },
        VisitState::Unvisited => {},
    }
    state.set(slot, VisitState::InProgress);
    order.push(id);
    let ghost s1 = state@;
    let ghost o1 = order@;
    let ghost stack1 = stack.push(id);
    proof {
        lemma_unvisited_update(s0, slot as int, VisitState::InProgress);
        // identifiers resolve to distinct slots, so all other marks and all
        // earlier order members are untouched
        assert forall|p: int| 0 <= p < order@.len() implies idx@.contains_key(
            #[trigger] order@[p],
        ) && !(s1[slot_of(*idx, order@[p])] is Unvisited) by {
            if p < order@.len() - 1 {
                assert(order@[p] == old(order)@[p]);
            }
        }
        assert forall|k: int| 0 <= k < s1.len() && !(#[trigger] s1[k] is Unvisited) implies order@
            .contains(idx.nodes@[k]@.id) by {
            if k != slot as int {
                assert(s0[k] == s1[k]);
                assert(old(order)@.contains(idx.nodes@[k]@.id));
                let w = choose|w: int|
                    0 <= w < old(order)@.len() && old(order)@[w] == idx.nodes@[k]@.id;
                assert(order@[w] == idx.nodes@[k]@.id);
            } else {
                assert(order@[order@.len() - 1] == id);
            }
        }
        assert(marks_ok(*idx, s1, order@));
        assert forall|k: int| 0 <= k < s1.len() && #[trigger] s1[k] is InProgress implies stack1
            .contains(idx.nodes@[k]@.id) by {
            if k == slot as int {
                assert(stack1[stack1.len() - 1] == id);
            } else {
                assert(s0[k] is InProgress);
                let w = choose|w: int| 0 <= w < stack.len() && stack[w] == idx.nodes@[k]@.id;
                assert(stack1[w] == idx.nodes@[k]@.id);
            }
        }
        assert(stack_ok(*idx, s1, root, stack1));
        assert(marked_reachable(*idx, s1, root));
    }
    let nc = idx.nodes[slot].nested.len();
    let mut c: usize = 0;
    while c < nc
        invariant
            marks_ok(*idx, state@, order@),
            marked_reachable(*idx, state@, root),
            stack_ok(*idx, state@, root, stack1),
            slot < state@.len(),
            slot as int == slot_of(*idx, id),
            idx@.contains_key(id),
            idx.nodes@[slot as int]@.id == id,
            nc == idx.nodes@[slot as int]@.nested.len(),
            state@[slot as int] is InProgress,
            marks_monotone(s1, state@),
            num_unvisited(s1) < num_unvisited(s0),
            num_unvisited(state@) <= num_unvisited(s1),
            s0.len() == s1.len(),
            forall|k: int| 0 <= k < s0.len() && k != slot as int ==> s0[k] == s1[k],
            s1[slot as int] is InProgress,
            s0[slot as int] is Unvisited,
            o1 == old(order)@.push(id),
            c <= nc,
            order@.len() >= o1.len(),
            order@.take(o1.len() as int) == o1,
            forall|q: int|
                0 <= q < c ==> idx@.contains_key(
                    #[trigger] idx.nodes@[slot as int]@.nested[q].id,
                ) && state@[slot_of(*idx, idx.nodes@[slot as int]@.nested[q].id)] is Done,
        decreases nc - c,
    {
        let cid = idx.nodes[slot].nested[c].id;
        proof {
            assert(cid == idx.nodes@[slot as int]@.nested[c as int].id);
            assert(num_unvisited(state@) < num_unvisited(s0));
            let f0 = choose|f: nat| reaches(idx@, root, id, f);
            lemma_reaches_extend(idx@, root, id, f0, c as int);
            assert(reaches(idx@, root, cid, (f0 + 1) as nat));
            assert(stack1[stack1.len() - 1] == id);
            assert(idx@[id].nested[c as int].id == cid);
        }
        let ghost sc = state@;
        let ghost oc = order@;
        match visit(idx, state, order, cid, Ghost(root), Ghost(stack1)) {
            Ok(()) => {},
            Err(e) => {
                return Err(e);
            },
        }
        proof {
            assert(marks_monotone(s1, state@));
            lemma_monotone_unvisited_le(sc, state@);
            assert forall|q: int| 0 <= q < c + 1 implies idx@.contains_key(
                #[trigger] idx.nodes@[slot as int]@.nested[q].id,
            ) && state@[slot_of(*idx, idx.nodes@[slot as int]@.nested[q].id)] is Done by {
                if q < c {
                    assert(sc[slot_of(*idx, idx.nodes@[slot as int]@.nested[q].id)] is Done);
                }
            }
            assert(order@.take(o1.len() as int) =~= oc.take(o1.len() as int)) by {
                assert(order@.take(oc.len() as int) == oc);
            }
        }
        c += 1;
    }
    let ghost s2 = state@;
    state.set(slot, VisitState::Done);
    proof {
        // the freshly finished node's children are finished (loop fact), and
        // every previously finished node is untouched
        assert forall|k: int| 0 <= k < state@.len() && #[trigger] state@[k] is Done implies
            children_done(*idx, state@, idx.nodes@[k]@) by {
            if k == slot as int {
                assert forall|q: int| 0 <= q < idx.nodes@[k]@.nested.len() implies idx@
                    .contains_key(#[trigger] idx.nodes@[k]@.nested[q].id) && state@[slot_of(
                    *idx,
                    idx.nodes@[k]@.nested[q].id,
                )] is Done by {
                    assert(s2[slot_of(*idx, idx.nodes@[k]@.nested[q].id)] is Done);
                }
            } else {
                assert(s2[k] is Done);
                assert(children_done(*idx, s2, idx.nodes@[k]@));
                assert forall|q: int| 0 <= q < idx.nodes@[k]@.nested.len() implies idx@
                    .contains_key(#[trigger] idx.nodes@[k]@.nested[q].id) && state@[slot_of(
                    *idx,
                    idx.nodes@[k]@.nested[q].id,
                )] is Done by {
                    assert(s2[slot_of(*idx, idx.nodes@[k]@.nested[q].id)] is Done);
                }
            }
        }
        assert(marks_ok(*idx, state@, order@));
        assert(marks_monotone(s0, state@));
        assert(marked_reachable(*idx, state@, root));
        // the ancestor chain itself never held the current node
        assert forall|t: int| 0 <= t < stack.len() implies state@[slot_of(
            *idx,
            #[trigger] stack[t],
        )] is InProgress by {
            assert(s2[slot_of(*idx, stack[t])] is InProgress);
            assert(stack[t] != id) by {
                if stack[t] == id {
                    assert(s0[slot_of(*idx, stack[t])] is InProgress);
                }
            }
        }
        assert forall|k: int| 0 <= k < state@.len() && #[trigger] state@[k] is InProgress implies
            stack.contains(idx.nodes@[k]@.id) by {
            assert(k != slot as int);
            assert(s2[k] is InProgress);
            assert(stack1.contains(idx.nodes@[k]@.id));
            let w = choose|w: int| 0 <= w < stack1.len() && stack1[w] == idx.nodes@[k]@.id;
            assert(w < stack.len()) by {
                if w == stack1.len() - 1 {
                    assert(idx.nodes@[k]@.id == id);
                    assert(idx.nodes@[slot as int]@.id == id);
                    if k < slot as int {
                        assert(idx.nodes@[k]@.id != idx.nodes@[slot as int]@.id);
                    } else {
                        assert(idx.nodes@[slot as int]@.id != idx.nodes@[k]@.id);
                    }
                }
            }
            assert(stack[w] == idx.nodes@[k]@.id);
        }
        assert(stack_ok(*idx, state@, root, stack));
        assert(order@.take(old(order)@.len() as int) =~= o1.take(old(order)@.len() as int)) by {
            assert(order@.take(o1.len() as int) == o1);
        }
        assert(o1.take(old(order)@.len() as int) =~= old(order)@);
        assert(order@[old(order)@.len() as int] == o1[old(order)@.len() as int]);
    }
    Ok(())
}

/// What a successful traversal from `root` certifies: the root is visited
/// first, nothing repeats, every member resolves in the index and is
/// reachable from the root, and every nested reference of a member is a
/// member — the order holds exactly the reachable nodes, each once.
pub open spec fn traversal_ok(idx: Map<u64, NodeView>, root: u64, order: Seq<u64>) -> bool {
    &&& order.len() > 0 && order[0] == root
    &&& forall|p: int, q: int| 0 <= p < q < order.len() ==> order[p] != order[q]
    &&& forall|p: int| 0 <= p < order.len() ==> idx.contains_key(#[trigger] order[p])
    &&& forall|p: int| 0 <= p < order.len() ==> reachable(idx, root, #[trigger] order[p])
    &&& forall|p: int, q: int|
        0 <= p < order.len() && 0 <= q < idx[order[p]].nested.len() ==> order.contains(
            #[trigger] idx[order[p]].nested[q].id,
        )
}

/// Depth-first, pre-order traversal from one requested top-level file, with
/// a fresh visitation state. Succeeds whenever every identifier reachable
/// from the file resolves and the reachable nesting is acyclic; on success
/// the returned order visits every reachable node exactly once, the file
/// itself first. A failure names a real reachable dangling identifier or a
/// real reachable cycle member.
pub fn traverse_file(idx: &NodeIndex, file_id: u64) -> (r: Result<Vec<u64>, BackendError>)
    requires
        idx.wf(),
    ensures
        r matches Ok(order) ==> traversal_ok(idx@, file_id, order@),
        r matches Err(e) ==> traverse_failure(idx@, file_id, e),
        file_clean(idx@, file_id) ==> r is Ok,
{
    let n = idx.nodes.len();
    let mut state: Vec<VisitState> = Vec::new();
    let mut k: usize = 0;
    while k < n
        invariant
            k <= n,
            state@.len() == k,
            forall|j: int| 0 <= j < k ==> state@[j] is Unvisited,
        decreases n - k,
    {
        state.push(VisitState::Unvisited);
        k += 1;
    }
    let mut order: Vec<u64> = Vec::new();
    let ghost st0 = state@;
    proof {
        assert(marks_ok(*idx, state@, order@));
        assert(reaches(idx@, file_id, file_id, 0));
        assert(reachable(idx@, file_id, file_id));
        assert(stack_ok(*idx, state@, file_id, Seq::empty()));
    }
    match visit(idx, &mut state, &mut order, file_id, Ghost(file_id), Ghost(Seq::empty())) {
        Ok(()) => {
            proof {
                // no node is in progress at the start, so none is at the
                // end: every marked node is finished
                assert forall|p: int, q: int|
                    0 <= p < order@.len() && 0 <= q < idx@[order@[p]].nested.len() implies order@
                    .contains(#[trigger] idx@[order@[p]].nested[q].id) by {
                    let s = slot_of(*idx, order@[p]);
                    assert(idx@.contains_key(order@[p]));
                    assert(!(state@[s] is Unvisited));
                    assert(!(st0[s] is InProgress));
                    assert(!(state@[s] is InProgress));
                    assert(state@[s] is Done);
                    assert(idx@[order@[p]] == idx.nodes@[s]@);
                    assert(children_done(*idx, state@, idx.nodes@[s]@));
                    let cid = idx.nodes@[s]@.nested[q].id;
                    let cs = slot_of(*idx, cid);
                    assert(state@[cs] is Done);
                    assert(order@.contains(idx.nodes@[cs]@.id));
                    assert(idx.nodes@[cs]@.id == cid);
                }
                assert forall|p: int| 0 <= p < order@.len() implies reachable(
                    idx@,
                    file_id,
                    #[trigger] order@[p],
                ) by {
                    let s = slot_of(*idx, order@[p]);
                    assert(!(state@[s] is Unvisited));
                    assert(idx.nodes@[s]@.id == order@[p]);
                }
                assert(traversal_ok(idx@, file_id, order@));
            }
            Ok(order)
        },
        Err(e) => {
            proof {
                // the failure's witness contradicts a clean file
                if file_clean(idx@, file_id) {
                    match e {
                        BackendError::MissingNode(mid) => {
                            let f = choose|f: nat| reaches(idx@, file_id, mid, f);
                            assert(idx@.contains_key(mid));
                        },
                        BackendError::CycleDetected(cid) => {
                            let f = choose|f: nat| reaches(idx@, file_id, cid, f);
                            assert(!on_cycle(idx@, cid));
                        },
                        _ => {},
                    }
                }
            }
            Err(e)
        },
    }
}

/// A successful traversal omits nothing: every node reachable from a member
/// of the visitation order is itself a member — and so every identifier
/// reachable from the requested file resolves in the index.
pub proof fn lemma_traversal_complete(
    idx: Map<u64, NodeView>,
    root: u64,
    order: Seq<u64>,
    from: u64,
    to: u64,
    fuel: nat,
)
    requires
        traversal_ok(idx, root, order),
        order.contains(from),
        reaches(idx, from, to, fuel),
    ensures
        order.contains(to),
        idx.contains_key(to),
    decreases fuel,
{
    if from == to {
        let p = choose|p: int| 0 <= p < order.len() && order[p] == to;
        assert(idx.contains_key(order[p]));
    } else {
        let p = choose|p: int| 0 <= p < order.len() && order[p] == from;
        let q = choose|q: int|
            0 <= q < idx[from].nested.len() && reaches(
                idx,
                idx[from].nested[q].id,
                to,
                (fuel - 1) as nat,
            );
        assert(order.contains(idx[order[p]].nested[q].id));
        lemma_traversal_complete(idx, root, order, idx[from].nested[q].id, to, (fuel - 1) as nat);
    }
}

} // verus!
