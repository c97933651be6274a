//! Node Index: a global identifier-to-node lookup table built once per
//! request, in one pass over the flat node list. Construction fails with
//! `DuplicateIdentifier` exactly when two distinct nodes share an identifier;
//! once built the index is read-only.

use vstd::prelude::*;

use std::collections::HashMap;

use crate::model::{BackendError, Node, NodeView, Request};

verus! {

broadcast use vstd::std_specs::hash::group_hash_axioms;

/// No two distinct nodes of the list share an identifier.
pub open spec fn unique_ids(nodes: Seq<NodeView>) -> bool {
    forall|p: int, q: int| 0 <= p < q < nodes.len() ==> nodes[p].id != nodes[q].id
}

/// The identifier-to-node mapping a node list denotes: defined on exactly
/// the identifiers that occur in the list, each mapped to the node carrying
/// it. Under `unique_ids` that node is unique.
pub open spec fn index_of(nodes: Seq<NodeView>) -> Map<u64, NodeView> {
    Map::new(
        |id: u64| exists|k: int| 0 <= k < nodes.len() && nodes[k].id == id,
        |id: u64|
            nodes[choose|k: int| 0 <= k < nodes.len() && nodes[k].id == id],
    )
}

/// An arena of node records plus an identifier-to-slot map, so any node can
/// be resolved by identifier without re-walking the list.
#[derive(Debug)]
pub struct NodeIndex {
    pub nodes: Vec<Node>,
    pub slots: HashMap<u64, usize>,
}

impl NodeIndex {
    /// The slot map covers exactly the arena's identifiers, each slot holds
    /// the node with that identifier, and identifiers are unique.
    pub open spec fn wf(&self) -> bool {
        &&& forall|id: u64| #[trigger]
            self.slots@.contains_key(id) ==> self.slots@[id] < self.nodes@.len()
                && self.nodes@[self.slots@[id] as int]@.id == id
        &&& forall|k: int|
            0 <= k < self.nodes@.len() ==> self.slots@.contains_key(
                #[trigger] self.nodes@[k]@.id,
            )
        &&& forall|p: int, q: int|
            0 <= p < q < self.nodes@.len() ==> self.nodes@[p]@.id != self.nodes@[q]@.id
    }

    /// The mapping this index denotes.
    pub open spec fn view(&self) -> Map<u64, NodeView> {
        Map::new(
            |id: u64| self.slots@.contains_key(id),
            |id: u64| self.nodes@[self.slots@[id] as int]@,
        )
    }

    /// The slot of an identifier, if the index holds it.
    pub fn slot(&self, id: u64) -> (r: Option<usize>)
        requires
            self.wf(),
        ensures
            match r {
                Some(s) => self@.contains_key(id) && s < self.nodes@.len() && s == self.slots@[id]
                    && self.nodes@[s as int]@ == self@[id] && self.nodes@[s as int]@.id == id,
                None => !self@.contains_key(id),
            },
    {
        match self.slots.get(&id) {
            Some(s) => Some(*s),
            None => None,
        }
    }

    /// Resolves an identifier to its node, if the index holds it.
    pub fn lookup(&self, id: u64) -> (r: Option<&Node>)
        requires
            self.wf(),
        ensures
            match r {
                Some(n) => self@.contains_key(id) && n@ == self@[id],
                None => !self@.contains_key(id),
            },
    {
        match self.slot(id) {
            Some(s) => Some(&self.nodes[s]),
            None => None,
        }
    }

    /// Builds the index in one pass over the request's node list.
    ///
    /// Succeeds if and only if every identifier in the list is unique; on
    /// success the index denotes exactly the mapping `index_of` of the list.
    /// Fails with `DuplicateIdentifier(id)` only when two distinct nodes
    /// both carry `id`.
    pub fn build(req: Request) -> (r: Result<NodeIndex, BackendError>)
        ensures
            match r {
                Ok(idx) => idx.wf() && unique_ids(req@.nodes) && idx.nodes@.map_values(
                    |n: Node| n@,
                ) == req@.nodes && idx@ == index_of(req@.nodes),
                Err(e) => !unique_ids(req@.nodes) && (e matches BackendError::DuplicateIdentifier(
                    d,
                ) && exists|p: int, q: int|
                    0 <= p < q < req@.nodes.len() && req@.nodes[p].id == d && req@.nodes[q].id
                        == d),
            },
    {
        let ghost nv = req@.nodes;
        let mut slots: HashMap<u64, usize> = HashMap::new();
        let mut i: usize = 0;
        while i < req.nodes.len()
            invariant
                i <= nv.len(),
                nv == req@.nodes,
                nv.len() == req.nodes@.len(),
                forall|k: int| 0 <= k < nv.len() ==> nv[k] == #[trigger] req.nodes@[k]@,
                forall|id: u64| #[trigger]
                    slots@.contains_key(id) ==> slots@[id] < i && nv[slots@[id] as int].id == id,
                forall|k: int| 0 <= k < i ==> slots@.contains_key(#[trigger] nv[k].id),
                forall|p: int, q: int| 0 <= p < q < i ==> nv[p].id != nv[q].id,
            decreases nv.len() - i,
        {
            let id = req.nodes[i].id;
            if slots.contains_key(&id) {
                proof {
                    let s = slots@[id] as int;
                    assert(0 <= s && s < i as int && (i as int) < nv.len());
                    assert(nv[s].id == id && nv[i as int].id == id);
                    assert(exists|p: int, q: int|
                        0 <= p < q < nv.len() && nv[p].id == id && nv[q].id == id) by {
                        assert(0 <= s && s < i as int && (i as int) < nv.len() && nv[s].id == id
                            && nv[i as int].id == id);
                    }
                    assert(!unique_ids(nv)) by {
                        assert(nv[s].id == nv[i as int].id);
                    }
                }
                return Err(BackendError::DuplicateIdentifier(id));
            }
            slots.insert(id, i);
            i += 1;
        }
        let idx = NodeIndex { nodes: req.nodes, slots };
        proof {
            assert forall|p: int, q: int|
                0 <= p < q < idx.nodes@.len() implies idx.nodes@[p]@.id != idx.nodes@[q]@.id by {
                assert(nv[p] == req.nodes@[p]@ && nv[q] == req.nodes@[q]@);
            }
            assert(idx.wf());
            assert forall|id: u64| idx@.contains_key(id) <==> index_of(nv).contains_key(id) by {
                if idx@.contains_key(id) {
                    let s = idx.slots@[id] as int;
                    assert(0 <= s < nv.len() && nv[s].id == id);
                }
            }
            assert forall|id: u64| #[trigger]
                idx@.contains_key(id) implies idx@[id] == index_of(nv)[id] by {
                let s = idx.slots@[id] as int;
                let c = choose|k: int| 0 <= k < nv.len() && nv[k].id == id;
                assert(0 <= s < nv.len() && nv[s].id == id);
                assert(nv[c].id == id);
                assert(c == s);
            }
            assert(idx@ =~= index_of(nv));
        }
        Ok(idx)
    }
}

} // verus!
