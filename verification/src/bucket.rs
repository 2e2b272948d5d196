//! A bucket of known peers, kept from the least to the most recently seen,
//! and what a contact from a peer does to it.

use std::collections::VecDeque;
use vstd::prelude::*;

use crate::node::{NodeInfo, NodeStatus};
use crate::node_id::NodeId;
use crate::ranking::{closest, is_closest};

verus! {

/// How a contact from a peer ended.
#[derive(Clone, Copy, Debug, PartialEq, Eq, Structural)]
pub enum Outcome {
    /// The peer was unknown and is now the most recently seen.
    Inserted,
    /// The peer was known and has become the most recently seen.
    Promoted,
    /// The peer is not stored.
    Rejected,
}

/// What the caller has to do next after reporting a contact.
#[derive(Clone, Copy, Debug)]
pub enum Step {
    /// Nothing: the contact has been dealt with.
    Done(Outcome),
    /// The bucket is full of other peers. Probe this one, the least recently
    /// seen, and report the answer with `resolve_probe`.
    Probe(NodeInfo),
}

impl Outcome {
    /// Whether the peer is stored after the contact.
    pub fn accepted(&self) -> (yes: bool)
        ensures
            yes == (*self != Outcome::Rejected),
    {
        match self {
            Outcome::Rejected => false,
            _ => true,
        }
    }
}

/// Some record in `nodes` has the identifier `id`.
pub open spec fn has_id(nodes: Seq<NodeInfo>, id: Seq<u8>) -> bool {
    exists|i: int| 0 <= i < nodes.len() && nodes[i].id@ == id
}

/// The place of the record with the identifier `id`, where there is one.
pub open spec fn index_of(nodes: Seq<NodeInfo>, id: Seq<u8>) -> int {
    choose|i: int| 0 <= i < nodes.len() && nodes[i].id@ == id
}

/// No two records in `nodes` have the same identifier.
pub open spec fn distinct_ids(nodes: Seq<NodeInfo>) -> bool {
    forall|i: int, j: int| 0 <= i < j < nodes.len() ==> nodes[i].id@ != nodes[j].id@
}

/// A bucket of the given capacity has no room left. A bucket without
/// capacity is full while empty.
pub open spec fn is_full(nodes: Seq<NodeInfo>, capacity: nat) -> bool {
    nodes.len() >= capacity
}

/// The bucket after a contact from `node`, and what is to be done next.
/// A known peer moves to the tail with its new record. An unknown one is
/// appended while there is room. In a full bucket nothing changes yet: the
/// head is to be probed.
pub open spec fn updated(nodes: Seq<NodeInfo>, capacity: nat, node: NodeInfo) -> (
    Seq<NodeInfo>,
    Step,
) {
    if has_id(nodes, node.id@) {
        (nodes.remove(index_of(nodes, node.id@)).push(node), Step::Done(Outcome::Promoted))
    } else if !is_full(nodes, capacity) {
        (nodes.push(node), Step::Done(Outcome::Inserted))
    } else if nodes.len() == 0 {
        (nodes, Step::Done(Outcome::Rejected))
    } else {
        (nodes, Step::Probe(nodes[0]))
    }
}

/// The bucket after the probe of `probed` has been answered, for a contact
/// from `node`. The answer counts only if the bucket is still full, `node`
/// still unknown and `probed` still the head. Then a head that responded
/// moves to the tail and `node` is rejected; a silent head is evicted and
/// `node` appended. Otherwise the contact is dealt with afresh.
pub open spec fn resolved(
    nodes: Seq<NodeInfo>,
    capacity: nat,
    node: NodeInfo,
    probed: Seq<u8>,
    responded: bool,
) -> (Seq<NodeInfo>, Step) {
    if has_id(nodes, node.id@) || !is_full(nodes, capacity) || nodes.len() == 0 || nodes[0].id@
        != probed {
        updated(nodes, capacity, node)
    } else if responded {
        (nodes.remove(0).push(nodes[0]), Step::Done(Outcome::Rejected))
    } else {
        (nodes.remove(0).push(node), Step::Done(Outcome::Inserted))
    }
}

/// The bucket after the status of the peer `id` has been set: the record
/// keeps its place.
pub open spec fn with_status(nodes: Seq<NodeInfo>, id: Seq<u8>, status: NodeStatus) -> Seq<
    NodeInfo,
> {
    if has_id(nodes, id) {
        let i = index_of(nodes, id);
        nodes.update(i, NodeInfo { id: nodes[i].id, socket: nodes[i].socket, status })
    } else {
        nodes
    }
}

/// Among records with distinct identifiers, the place of an identifier is
/// the only one that holds it.
pub proof fn lemma_index_of(nodes: Seq<NodeInfo>, i: int)
    requires
        distinct_ids(nodes),
        0 <= i < nodes.len(),
    ensures
        has_id(nodes, nodes[i].id@),
        index_of(nodes, nodes[i].id@) == i,
{
    let c = index_of(nodes, nodes[i].id@);
    assert(0 <= c < nodes.len() && nodes[c].id@ == nodes[i].id@);
    if c < i {
        assert(nodes[c].id@ != nodes[i].id@);
    }
    if i < c {
        assert(nodes[i].id@ != nodes[c].id@);
    }
}

/// Replacing the record at `i` by one at the tail whose identifier no other
/// record has keeps the identifiers distinct.
pub proof fn lemma_remove_push_distinct(nodes: Seq<NodeInfo>, i: int, node: NodeInfo)
    requires
        distinct_ids(nodes),
        0 <= i < nodes.len(),
        forall|j: int| 0 <= j < nodes.len() && j != i ==> nodes[j].id@ != node.id@,
    ensures
        distinct_ids(nodes.remove(i).push(node)),
        nodes.remove(i).push(node).len() == nodes.len(),
{
    let after = nodes.remove(i).push(node);
    assert forall|a: int, b: int| 0 <= a < b < after.len() implies after[a].id@
        != after[b].id@ by {
        let sa = if a < i {
            a
        } else {
            a + 1
        };
        assert(after[a] == nodes[sa]);
        if b < after.len() - 1 {
            let sb = if b < i {
                b
            } else {
                b + 1
            };
            assert(after[b] == nodes[sb]);
            assert(nodes[sa].id@ != nodes[sb].id@);
        } else {
            assert(after[b] == node);
        }
    }
}

/// Appending a record whose identifier is new keeps the identifiers distinct.
pub proof fn lemma_push_distinct(nodes: Seq<NodeInfo>, node: NodeInfo)
    requires
        distinct_ids(nodes),
        !has_id(nodes, node.id@),
    ensures
        distinct_ids(nodes.push(node)),
{
    let after = nodes.push(node);
    assert forall|a: int, b: int| 0 <= a < b < after.len() implies after[a].id@
        != after[b].id@ by {
        if b < nodes.len() {
            assert(nodes[a].id@ != nodes[b].id@);
        } else {
            assert(0 <= a < nodes.len() && after[a] == nodes[a]);
        }
    }
}

/// Every record of a bucket after a contact was in it before, or is the
/// record of the contact.
pub proof fn lemma_updated_members(nodes: Seq<NodeInfo>, capacity: nat, node: NodeInfo)
    requires
        distinct_ids(nodes),
        nodes.len() <= capacity,
    ensures
        forall|j: int|
            0 <= j < updated(nodes, capacity, node).0.len() ==> {
                let rec = #[trigger] updated(nodes, capacity, node).0[j];
                rec == node || nodes.contains(rec)
            },
        distinct_ids(updated(nodes, capacity, node).0),
        updated(nodes, capacity, node).0.len() <= capacity,
{
    let after = updated(nodes, capacity, node).0;
    if has_id(nodes, node.id@) {
        let i = index_of(nodes, node.id@);
        assert forall|j: int| 0 <= j < nodes.len() && j != i implies nodes[j].id@
            != node.id@ by {
            if j < i {
                assert(nodes[j].id@ != nodes[i].id@);
            } else {
                assert(nodes[i].id@ != nodes[j].id@);
            }
        }
        lemma_remove_push_distinct(nodes, i, node);
        assert forall|j: int| 0 <= j < after.len() implies (after[j] == node || nodes.contains(
            after[j],
        )) by {
            if j < after.len() - 1 {
                let sj = if j < i {
                    j
                } else {
                    j + 1
                };
                assert(after[j] == nodes[sj]);
            }
        }
    } else if !is_full(nodes, capacity) {
        lemma_push_distinct(nodes, node);
        assert forall|j: int| 0 <= j < after.len() implies (after[j] == node || nodes.contains(
            after[j],
        )) by {
            if j < nodes.len() {
                assert(after[j] == nodes[j]);
            }
        }
    } else {
        assert forall|j: int| 0 <= j < after.len() implies (after[j] == node || nodes.contains(
            after[j],
        )) by {
            assert(after[j] == nodes[j]);
        }
    }
}

/// Every record of a bucket after a probe was in it before, or is the
/// record of the contact.
pub proof fn lemma_resolved_members(
    nodes: Seq<NodeInfo>,
    capacity: nat,
    node: NodeInfo,
    probed: Seq<u8>,
    responded: bool,
)
    requires
        distinct_ids(nodes),
        nodes.len() <= capacity,
    ensures
        forall|j: int|
            0 <= j < resolved(nodes, capacity, node, probed, responded).0.len() ==> {
                let rec = #[trigger] resolved(nodes, capacity, node, probed, responded).0[j];
                rec == node || nodes.contains(rec)
            },
        distinct_ids(resolved(nodes, capacity, node, probed, responded).0),
        resolved(nodes, capacity, node, probed, responded).0.len() <= capacity,
{
    let after = resolved(nodes, capacity, node, probed, responded).0;
    if has_id(nodes, node.id@) || !is_full(nodes, capacity) || nodes.len() == 0 || nodes[0].id@
        != probed {
        lemma_updated_members(nodes, capacity, node);
    } else {
        let tail = if responded {
            nodes[0]
        } else {
            node
        };
        assert forall|j: int| 0 <= j < nodes.len() && j != 0 implies nodes[j].id@
            != tail.id@ by {
            if responded {
                assert(nodes[0].id@ != nodes[j].id@);
            } else {
                assert(!has_id(nodes, node.id@));
            }
        }
        lemma_remove_push_distinct(nodes, 0, tail);
        assert forall|j: int| 0 <= j < after.len() implies (after[j] == node || nodes.contains(
            after[j],
        )) by {
            if j < after.len() - 1 {
                assert(after[j] == nodes[j + 1]);
            } else {
                assert(after[j] == tail);
                assert(nodes.contains(nodes[0]));
            }
        }
    }
}

/// A bucket of a routing table: known peers from the least recently seen,
/// at the head, to the most recently seen, at the tail. It never holds more
/// peers than its capacity, and no identifier twice.
#[derive(Debug)]
pub struct NodeBucket {
    nodes: VecDeque<NodeInfo>,
    node_count: usize,
}

impl View for NodeBucket {
    type V = Seq<NodeInfo>;

    /// The records, least recently seen first.
    closed spec fn view(&self) -> Seq<NodeInfo> {
        self.nodes@
    }
}

impl NodeBucket {
    #[verifier::type_invariant]
    spec fn inv(&self) -> bool {
        self.nodes@.len() <= self.node_count && distinct_ids(self.nodes@)
    }

    /// How many peers the bucket can hold.
    pub closed spec fn capacity(&self) -> nat {
        self.node_count as nat
    }

    /// What holds of every bucket: no more records than its capacity, and
    /// no identifier twice.
    pub open spec fn wf(&self) -> bool {
        self@.len() <= self.capacity() && distinct_ids(self@)
    }

    /// An empty bucket for `node_count` peers.
    pub fn new(node_count: usize) -> (bucket: NodeBucket)
        ensures
            bucket@ == Seq::<NodeInfo>::empty(),
            bucket.capacity() == node_count,
            bucket.wf(),
    {
        NodeBucket { nodes: VecDeque::new(), node_count }
    }

    /// The records, least recently seen first.
    pub fn nodes(&self) -> (nodes: &VecDeque<NodeInfo>)
        ensures
            nodes@ == self@,
            self.wf(),
    {
        proof {
            use_type_invariant(self);
        }
        &self.nodes
    }

    /// How many peers the bucket can hold.
    pub fn node_count(&self) -> (count: usize)
        ensures
            count == self.capacity(),
    {
        self.node_count
    }

    /// Where the record of the peer `id` stands, if the bucket has one.
    pub fn position(&self, id: &NodeId) -> (found: Option<usize>)
        ensures
            found.is_some() <==> has_id(self@, id@),
            found matches Some(i) ==> i < self@.len() && i == index_of(self@, id@),
    {
        proof {
            use_type_invariant(self);
        }
        let mut i: usize = 0;
        while i < self.nodes.len()
            invariant
                i <= self.nodes@.len(),
                distinct_ids(self.nodes@),
                forall|j: int| 0 <= j < i ==> self.nodes@[j].id@ != id@,
            decreases self.nodes@.len() - i,
        {
            if self.nodes[i].id == *id {
                proof {
                    lemma_index_of(self.nodes@, i as int);
                }
                return Some(i);
            }
            i += 1;
        }
        None
    }

    /// The peer that a contact from `node` would ask to probe: the head,
    /// where the bucket is full of other peers. The bucket is only read.
    pub fn probe_target(&self, node: &NodeInfo) -> (head: Option<NodeInfo>)
        ensures
            match updated(self@, self.capacity(), *node).1 {
                Step::Probe(target) => head == Some(target),
                Step::Done(_) => head.is_none(),
            },
    {
        if self.position(&node.id).is_some() || self.nodes.len() < self.node_count
            || self.nodes.len() == 0 {
            None
        } else {
            Some(self.nodes[0])
        }
    }

    /// Takes the record at `at` out and appends `node`, a record of the same
    /// peer, at the tail: the peer is now the most recently seen.
    fn promote_to_top(&mut self, at: usize, node: NodeInfo)
        requires
            at < old(self)@.len(),
            old(self)@[at as int].id@ == node.id@,
        ensures
            final(self).capacity() == old(self).capacity(),
            final(self)@ == old(self)@.remove(at as int).push(node),
    {
        proof {
            use_type_invariant(&*self);
            assert forall|j: int| 0 <= j < self.nodes@.len() && j != at implies self.nodes@[j].id@
                != node.id@ by {
                if j < at {
                    assert(self.nodes@[j].id@ != self.nodes@[at as int].id@);
                } else {
                    assert(self.nodes@[at as int].id@ != self.nodes@[j].id@);
                }
            }
            lemma_remove_push_distinct(self.nodes@, at as int, node);
        }
        let mut nodes: VecDeque<NodeInfo> = VecDeque::new();
        std::mem::swap(&mut self.nodes, &mut nodes);
        nodes.remove(at);
        nodes.push_back(node);
        self.nodes = nodes;
    }

    /// Records a contact from `node`. A known peer moves to the tail, an
    /// unknown one is appended while there is room. Where the bucket is full
    /// of other peers it stays as it is, and the head is handed out to be
    /// probed.
    pub fn update(&mut self, node: &NodeInfo) -> (step: Step)
        ensures
            final(self).capacity() == old(self).capacity(),
            (final(self)@, step) == updated(old(self)@, old(self).capacity(), *node),
            final(self).wf(),
    {
        proof {
            use_type_invariant(&*self);
            lemma_updated_members(self.nodes@, self.node_count as nat, *node);
        }
        match self.position(&node.id) {
            Some(i) => {
                self.promote_to_top(i, *node);
                Step::Done(Outcome::Promoted)
            },
            None => {
                if self.nodes.len() < self.node_count {
                    let mut nodes: VecDeque<NodeInfo> = VecDeque::new();
                    std::mem::swap(&mut self.nodes, &mut nodes);
                    nodes.push_back(*node);
                    self.nodes = nodes;
                    Step::Done(Outcome::Inserted)
                } else if self.nodes.len() == 0 {
                    Step::Done(Outcome::Rejected)
                } else {
                    Step::Probe(self.nodes[0])
                }
            },
        }
    }

    /// Records the answer to the probe of `probed`, asked for by a contact
    /// from `node`. The bucket may have changed since the probe was handed
    /// out, so the answer is applied only if it still fits: the bucket full,
    /// `node` unknown, `probed` at the head. A head that responded moves to
    /// the tail and `node` is rejected; a silent head is evicted and `node`
    /// appended. An answer that no longer fits is dropped and the contact
    /// dealt with as by `update`.
    pub fn resolve_probe(&mut self, node: &NodeInfo, probed: &NodeId, responded: bool) -> (step:
        Step)
        ensures
            final(self).capacity() == old(self).capacity(),
            (final(self)@, step) == resolved(
                old(self)@,
                old(self).capacity(),
                *node,
                probed@,
                responded,
            ),
            final(self).wf(),
    {
        proof {
            use_type_invariant(&*self);
            lemma_resolved_members(
                self.nodes@,
                self.node_count as nat,
                *node,
                probed@,
                responded,
            );
        }
        let known = self.position(&node.id).is_some();
        if known || self.nodes.len() < self.node_count || self.nodes.len() == 0 {
            return self.update(node);
        }
        let head = self.nodes[0];
        if head.id != *probed {
            return self.update(node);
        }
        let mut nodes: VecDeque<NodeInfo> = VecDeque::new();
        std::mem::swap(&mut self.nodes, &mut nodes);
        nodes.remove(0);
        if responded {
            nodes.push_back(head);
            self.nodes = nodes;
            Step::Done(Outcome::Rejected)
        } else {
            nodes.push_back(*node);
            self.nodes = nodes;
            Step::Done(Outcome::Inserted)
        }
    }

    /// Sets the status of the peer `id`, where the bucket has it. The record
    /// keeps its place: a change of status is no contact.
    pub fn update_status(&mut self, id: &NodeId, status: NodeStatus) -> (known: bool)
        ensures
            final(self).capacity() == old(self).capacity(),
            known == has_id(old(self)@, id@),
            final(self)@ == with_status(old(self)@, id@, status),
            final(self).wf(),
    {
        proof {
            use_type_invariant(&*self);
        }
        match self.position(id) {
            Some(i) => {
                let changed = self.nodes[i].with_status(status);
                let mut nodes: VecDeque<NodeInfo> = VecDeque::new();
                std::mem::swap(&mut self.nodes, &mut nodes);
                let ghost before = nodes@;
                nodes.remove(i);
                nodes.insert(i, changed);
                proof {
                    assert(nodes@ =~= before.update(i as int, changed));
                    assert forall|a: int, b: int| 0 <= a < b < nodes@.len() implies nodes@[a].id@
                        != nodes@[b].id@ by {
                        assert(nodes@[a].id@ == before[a].id@);
                        assert(nodes@[b].id@ == before[b].id@);
                    }
                }
                self.nodes = nodes;
                true
            },
            None => false,
        }
    }

    /// Up to `count` records of this bucket, closest to `id` first.
    pub fn find(&self, id: &NodeId, count: usize) -> (found: Vec<NodeInfo>)
        ensures
            is_closest(found@, self@, id@, count as nat),
    {
        proof {
            use_type_invariant(self);
        }
        let mut copy: Vec<NodeInfo> = Vec::new();
        let mut i: usize = 0;
        while i < self.nodes.len()
            invariant
                i <= self.nodes@.len(),
                copy@ == self.nodes@.subrange(0, i as int),
            decreases self.nodes@.len() - i,
        {
            copy.push(self.nodes[i]);
            i += 1;
        }
        assert(copy@ =~= self.nodes@);
        closest(&copy, id, count)
    }

    /// Takes the least recently seen peer out of a bucket that is full.
    pub fn pop_oldest(&mut self) -> (oldest: Option<NodeInfo>)
        ensures
            final(self).capacity() == old(self).capacity(),
            final(self).wf(),
            match oldest {
                Some(node) => {
                    &&& old(self)@.len() > 0
                    &&& is_full(old(self)@, old(self).capacity())
                    &&& node == old(self)@[0]
                    &&& final(self)@ == old(self)@.drop_first()
                },
                None => {
                    &&& old(self)@.len() == 0 || !is_full(old(self)@, old(self).capacity())
                    &&& final(self)@ == old(self)@
                },
            },
    {
        proof {
            use_type_invariant(&*self);
        }
        if self.nodes.len() == 0 || self.nodes.len() != self.node_count {
            return None;
        }
        let mut nodes: VecDeque<NodeInfo> = VecDeque::new();
        std::mem::swap(&mut self.nodes, &mut nodes);
        let ghost before = nodes@;
        let head = nodes.pop_front();
        proof {
            assert(nodes@ =~= before.drop_first());
            assert forall|a: int, b: int| 0 <= a < b < nodes@.len() implies nodes@[a].id@
                != nodes@[b].id@ by {
                assert(before[a + 1].id@ != before[b + 1].id@);
            }
        }
        self.nodes = nodes;
        head
    }
}

impl Clone for NodeBucket {
    fn clone(&self) -> (copy: NodeBucket)
        ensures
            copy@ == self@,
            copy.capacity() == self.capacity(),
            copy.wf(),
    {
        proof {
            use_type_invariant(self);
        }
        let mut nodes: VecDeque<NodeInfo> = VecDeque::new();
        let mut i: usize = 0;
        while i < self.nodes.len()
            invariant
                i <= self.nodes@.len(),
                nodes@ == self.nodes@.subrange(0, i as int),
            decreases self.nodes@.len() - i,
        {
            nodes.push_back(self.nodes[i]);
            i += 1;
        }
        assert(nodes@ =~= self.nodes@);
        NodeBucket { nodes, node_count: self.node_count }
    }
}

} // verus!
