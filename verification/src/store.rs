//! Storage (routing table): the known peers in buckets by their distance
//! from the local identifier.

use vstd::prelude::*;

pub use crate::bucket::{NodeBucket, Outcome, Step};
use crate::bucket::{
    distinct_ids, has_id, is_full, lemma_resolved_members, lemma_updated_members, resolved,
    updated,
};
use crate::error::DistanceIsZero;
use crate::metric::{highest_bit, lemma_highest_bit_monotone, xor_distance};
use crate::node::NodeInfo;
use crate::node_id::{KadMetric, NodeId};
use crate::ranking::{closest, is_closest, law_closest_is_unique};

verus! {

/// Number of buckets in a `NodeTable`.
pub const DEFAULT_BUCKET_COUNT: usize = 32;

/// Number of nodes in a `NodeBucket`.
pub const DEFAULT_BUCKET_SIZE: usize = 64;

/// The bucket for a peer at the given distance, in a table of `buckets`
/// buckets. With 256 buckets it is the position of the highest set bit of
/// the distance. A table of fewer buckets tells the top `buckets` bit
/// positions apart and keeps every closer peer in bucket 0.
pub open spec fn bucket_slot(distance: nat, buckets: nat) -> nat {
    let top = highest_bit(distance);
    let skipped: nat = if buckets < 256 {
        (256 - buckets) as nat
    } else {
        0
    };
    if top > skipped {
        (top - skipped) as nat
    } else {
        0
    }
}

/// The record `node` may stand in bucket `slot` of the table of `local`: it
/// is not the local peer, and `slot` is the bucket for its distance.
pub open spec fn placed(local: Seq<u8>, buckets: nat, slot: int, node: NodeInfo) -> bool {
    node.id@ != local && bucket_slot(xor_distance(local, node.id@), buckets) == slot
}

/// Bucket `slot` is a valid bucket and every record in it stands rightly.
pub open spec fn slot_wf(local: Seq<u8>, buckets: Seq<NodeBucket>, slot: int) -> bool {
    &&& buckets[slot].wf()
    &&& forall|j: int|
        0 <= j < buckets[slot]@.len() ==> placed(
            local,
            buckets.len(),
            slot,
            #[trigger] buckets[slot]@[j],
        )
}

/// What holds of every routing table: each bucket is valid, the local
/// identifier is stored nowhere, and each record stands in the bucket for
/// its distance from the local identifier.
pub open spec fn table_wf(local: Seq<u8>, buckets: Seq<NodeBucket>) -> bool {
    forall|b: int| 0 <= b < buckets.len() ==> #[trigger] slot_wf(local, buckets, b)
}

/// The records of all buckets, bucket after bucket.
pub open spec fn all_records(buckets: Seq<NodeBucket>) -> Seq<NodeInfo>
    decreases buckets.len(),
{
    if buckets.len() == 0 {
        Seq::empty()
    } else {
        all_records(buckets.drop_last()) + buckets.last()@
    }
}

/// A bucket from which `pop_oldest` takes the head: it is full and not empty.
pub open spec fn gives_oldest(bucket: NodeBucket) -> bool {
    bucket@.len() > 0 && is_full(bucket@, bucket.capacity())
}

/// The heads of the full buckets, in the order of the buckets.
pub open spec fn oldest_of_full(buckets: Seq<NodeBucket>) -> Seq<NodeInfo>
    decreases buckets.len(),
{
    if buckets.len() == 0 {
        Seq::empty()
    } else if gives_oldest(buckets.last()) {
        oldest_of_full(buckets.drop_last()).push(buckets.last()@[0])
    } else {
        oldest_of_full(buckets.drop_last())
    }
}

/// Across the first `upto` buckets of a valid table no identifier occurs
/// twice, and every record belongs to one of these buckets.
pub proof fn lemma_records_distinct(local: Seq<u8>, buckets: Seq<NodeBucket>, upto: int)
    requires
        table_wf(local, buckets),
        0 <= upto <= buckets.len(),
    ensures
        distinct_ids(all_records(buckets.subrange(0, upto))),
        forall|i: int|
            0 <= i < all_records(buckets.subrange(0, upto)).len() ==> {
                let rec = #[trigger] all_records(buckets.subrange(0, upto))[i];
                rec.id@ != local && bucket_slot(xor_distance(local, rec.id@), buckets.len())
                    < upto
            },
    decreases upto,
{
    let prefix = buckets.subrange(0, upto);
    if upto > 0 {
        let shorter = buckets.subrange(0, upto - 1);
        assert(prefix.drop_last() =~= shorter);
        assert(prefix.last() == buckets[upto - 1]);
        lemma_records_distinct(local, buckets, upto - 1);
        assert(slot_wf(local, buckets, upto - 1));
        let head = all_records(shorter);
        let tail = buckets[upto - 1]@;
        let recs = all_records(prefix);
        assert(recs == head + tail);
        assert forall|i: int| 0 <= i < recs.len() implies {
            let rec = #[trigger] recs[i];
            rec.id@ != local && bucket_slot(xor_distance(local, rec.id@), buckets.len()) < upto
        } by {
            if i < head.len() {
                assert(recs[i] == head[i]);
            } else {
                assert(recs[i] == tail[i - head.len()]);
            }
        }
        assert forall|i: int, j: int| 0 <= i < j < recs.len() implies recs[i].id@
            != recs[j].id@ by {
            if j < head.len() {
                assert(recs[i] == head[i] && recs[j] == head[j]);
            } else if i < head.len() {
                assert(recs[i] == head[i]);
                assert(recs[j] == tail[j - head.len()]);
            } else {
                assert(recs[i] == tail[i - head.len()]);
                assert(recs[j] == tail[j - head.len()]);
            }
        }
    }
}

/// A peer that is farther from the local identifier never stands in a lower
/// bucket than one that is closer.
pub proof fn law_bucket_index_monotone(table: NodeTable, near: NodeId, far: NodeId)
    requires
        table.local().spec_metric_distance(&near) matches Some(d_near)
            && table.local().spec_metric_distance(&far) matches Some(d_far) && d_near < d_far,
    ensures
        table.spec_bucket_index(&near) matches Some(slot_near) && table.spec_bucket_index(
            &far,
        ) matches Some(slot_far) && slot_near <= slot_far,
{
    lemma_highest_bit_monotone(
        xor_distance(table.local()@, near@),
        xor_distance(table.local()@, far@),
    );
}

/// What `find` returns is determined by the records that a table holds:
/// two valid tables with the same records, stored in whatever order, give
/// the same peers in the same order for one target and one count.
pub proof fn law_find_is_deterministic(
    first: NodeTable,
    second: NodeTable,
    target: NodeId,
    count: nat,
    found_first: Seq<NodeInfo>,
    found_second: Seq<NodeInfo>,
)
    requires
        first.wf(),
        second.wf(),
        first.records().to_set() == second.records().to_set(),
        is_closest(found_first, first.records(), target@, count),
        is_closest(found_second, second.records(), target@, count),
    ensures
        found_first == found_second,
{
    lemma_records_distinct(first.local()@, first@, first@.len() as int);
    lemma_records_distinct(second.local()@, second@, second@.len() as int);
    assert(first@.subrange(0, first@.len() as int) =~= first@);
    assert(second@.subrange(0, second@.len() as int) =~= second@);
    law_closest_is_unique(
        first.records(),
        second.records(),
        target,
        count,
        found_first,
        found_second,
    );
}

/// In a valid table the local identifier is stored nowhere, and no
/// identifier is stored twice.
pub proof fn law_local_is_never_stored(table: NodeTable)
    requires
        table.wf(),
    ensures
        !has_id(table.records(), table.local()@),
        distinct_ids(table.records()),
{
    lemma_records_distinct(table.local()@, table@, table@.len() as int);
    assert(table@.subrange(0, table@.len() as int) =~= table@);
}

/// The routing table of a node: its own identifier, and the known peers in
/// buckets by their distance from it. The local identifier is never stored.
#[derive(Debug)]
pub struct NodeTable {
    id: NodeId,
    buckets: Vec<NodeBucket>,
}

impl View for NodeTable {
    type V = Seq<NodeBucket>;

    /// The buckets, from the closest peers to the farthest.
    closed spec fn view(&self) -> Seq<NodeBucket> {
        self.buckets@
    }
}

impl NodeTable {
    #[verifier::type_invariant]
    spec fn inv(&self) -> bool {
        table_wf(self.id@, self.buckets@)
    }

    /// The identifier of the local peer, which owns the table.
    pub closed spec fn local(&self) -> NodeId {
        self.id
    }

    /// What holds of every routing table.
    pub open spec fn wf(&self) -> bool {
        table_wf(self.local()@, self@)
    }

    /// All records of the table, bucket after bucket.
    pub open spec fn records(&self) -> Seq<NodeInfo> {
        all_records(self@)
    }

    /// The bucket for the peer `id`, or nothing for the local identifier.
    pub open spec fn spec_bucket_index(&self, id: &NodeId) -> Option<nat> {
        match self.local().spec_metric_distance(id) {
            Some(d) => Some(bucket_slot(d, self@.len())),
            None => None,
        }
    }

    /// Create a new node table
    pub fn new(id: NodeId) -> (table: NodeTable)
        ensures
            table.local() == id,
            table@.len() == DEFAULT_BUCKET_COUNT,
            forall|b: int|
                0 <= b < table@.len() ==> (#[trigger] table@[b])@.len() == 0
                    && table@[b].capacity() == DEFAULT_BUCKET_SIZE,
            table.wf(),
    {
        NodeTable::new_custom_table(id, DEFAULT_BUCKET_COUNT, DEFAULT_BUCKET_SIZE)
    }

    /// An empty table of `bucket_count` buckets for `node_count` peers each.
    pub fn new_custom_table(id: NodeId, bucket_count: usize, node_count: usize) -> (table:
        NodeTable)
        ensures
            table.local() == id,
            table@.len() == bucket_count,
            forall|b: int|
                0 <= b < table@.len() ==> (#[trigger] table@[b])@.len() == 0
                    && table@[b].capacity() == node_count,
            table.wf(),
    {
        let mut buckets: Vec<NodeBucket> = Vec::new();
        let mut i: usize = 0;
        while i < bucket_count
            invariant
                i <= bucket_count,
                buckets@.len() == i,
                forall|b: int|
                    0 <= b < i ==> (#[trigger] buckets@[b])@.len() == 0 && buckets@[b].capacity()
                        == node_count,
            decreases bucket_count - i,
        {
            buckets.push(NodeBucket::new(node_count));
            i += 1;
        }
        assert forall|b: int| 0 <= b < buckets@.len() implies #[trigger] slot_wf(
            id@,
            buckets@,
            b,
        ) by {
            assert(buckets@[b]@.len() == 0);
        }
        NodeTable { id, buckets }
    }

    /// The identifier of the local peer.
    pub fn id(&self) -> (id: NodeId)
        ensures
            id == self.local(),
    {
        self.id
    }

    /// Get buckets
    pub fn buckets(&self) -> (buckets: &Vec<NodeBucket>)
        ensures
            buckets@ == self@,
            self.wf(),
    {
        proof {
            use_type_invariant(self);
        }
        &self.buckets
    }

    /// The bucket for the peer `id`. The local identifier has none. In a
    /// table without buckets the answer is 0, though there is no such bucket.
    pub fn bucket_index(&self, id: &NodeId) -> (r: Result<usize, DistanceIsZero>)
        ensures
            r.is_ok() <==> id@ != self.local()@,
            r matches Ok(slot) ==> self.spec_bucket_index(id) == Some(slot as nat) && (self@.len()
                > 0 ==> slot < self@.len()),
    {
        match self.id.metric_distance(id) {
            Ok(d) => {
                let top: usize = (d.bits() - 1) as usize;
                let count = self.buckets.len();
                let skipped: usize = if count < 256 {
                    256 - count
                } else {
                    0
                };
                if top > skipped {
                    Ok(top - skipped)
                } else {
                    Ok(0)
                }
            },
            Err(e) => Err(e),
        }
    }

    /// The peer that a contact from `node` would ask to probe, if any. The
    /// table is only read.
    pub fn probe_target(&self, node: &NodeInfo) -> (head: Option<NodeInfo>)
        ensures
            match self.spec_bucket_index(&node.id) {
                Some(slot) if slot < self@.len() => match updated(
                    self@[slot as int]@,
                    self@[slot as int].capacity(),
                    *node,
                ).1 {
                    Step::Probe(target) => head == Some(target),
                    Step::Done(_) => head.is_none(),
                },
                _ => head.is_none(),
            },
    {
        match self.bucket_index(&node.id) {
            Ok(slot) => {
                if slot < self.buckets.len() {
                    self.buckets[slot].probe_target(node)
                } else {
                    None
                }
            },
            Err(_) => None,
        }
    }

    /// Records a contact from `node` in the bucket for its distance, as
    /// `NodeBucket::update` does. The local identifier is never stored, and
    /// a table without buckets stores nothing.
    pub fn update(&mut self, node: &NodeInfo) -> (step: Step)
        ensures
            final(self).local() == old(self).local(),
            final(self)@.len() == old(self)@.len(),
            node.id@ == old(self).local()@ ==> step == Step::Done(Outcome::Rejected) && final(self)@ == old(self)@,
            match old(self).spec_bucket_index(&node.id) {
                Some(slot) if slot < old(self)@.len() => {
                    &&& (final(self)@[slot as int]@, step) == updated(
                        old(self)@[slot as int]@,
                        old(self)@[slot as int].capacity(),
                        *node,
                    )
                    &&& final(self)@[slot as int].capacity() == old(self)@[slot as int].capacity()
                    &&& forall|b: int|
                        0 <= b < old(self)@.len() && b != slot ==> final(self)@[b] == old(self)@[b]
                },
                _ => step == Step::Done(Outcome::Rejected) && final(self)@ == old(self)@,
            },
            final(self).wf(),
    {
        proof {
            use_type_invariant(&*self);
        }
        let slot = match self.bucket_index(&node.id) {
            Ok(slot) => slot,
            Err(_) => {
                return Step::Done(Outcome::Rejected);
            },
        };
        if slot >= self.buckets.len() {
            return Step::Done(Outcome::Rejected);
        }
        let mut buckets: Vec<NodeBucket> = Vec::new();
        std::mem::swap(&mut self.buckets, &mut buckets);
        let ghost before = buckets@;
        let step = buckets[slot].update(node);
        proof {
            assert(slot_wf(self.id@, before, slot as int));
            lemma_updated_members(before[slot as int]@, before[slot as int].capacity(), *node);
            lemma_table_wf_after(self.id@, before, buckets@, slot as int, *node);
        }
        self.buckets = buckets;
        step
    }

    /// Records the answer to a probe in the bucket for the distance of
    /// `node`, as `NodeBucket::resolve_probe` does.
    pub fn resolve_probe(&mut self, node: &NodeInfo, probed: &NodeId, responded: bool) -> (step:
        Step)
        ensures
            final(self).local() == old(self).local(),
            final(self)@.len() == old(self)@.len(),
            node.id@ == old(self).local()@ ==> step == Step::Done(Outcome::Rejected) && final(self)@ == old(self)@,
            match old(self).spec_bucket_index(&node.id) {
                Some(slot) if slot < old(self)@.len() => {
                    &&& (final(self)@[slot as int]@, step) == resolved(
                        old(self)@[slot as int]@,
                        old(self)@[slot as int].capacity(),
                        *node,
                        probed@,
                        responded,
                    )
                    &&& final(self)@[slot as int].capacity() == old(self)@[slot as int].capacity()
                    &&& forall|b: int|
                        0 <= b < old(self)@.len() && b != slot ==> final(self)@[b] == old(self)@[b]
                },
                _ => step == Step::Done(Outcome::Rejected) && final(self)@ == old(self)@,
            },
            final(self).wf(),
    {
        proof {
            use_type_invariant(&*self);
        }
        let slot = match self.bucket_index(&node.id) {
            Ok(slot) => slot,
            Err(_) => {
                return Step::Done(Outcome::Rejected);
            },
        };
        if slot >= self.buckets.len() {
            return Step::Done(Outcome::Rejected);
        }
        let mut buckets: Vec<NodeBucket> = Vec::new();
        std::mem::swap(&mut self.buckets, &mut buckets);
        let ghost before = buckets@;
        let step = buckets[slot].resolve_probe(node, probed, responded);
        proof {
            assert(slot_wf(self.id@, before, slot as int));
            lemma_resolved_members(
                before[slot as int]@,
                before[slot as int].capacity(),
                *node,
                probed@,
                responded,
            );
            lemma_table_wf_after(self.id@, before, buckets@, slot as int, *node);
        }
        self.buckets = buckets;
        step
    }

    /// Up to `count` records of the whole table, closest to `id` first. The
    /// local identifier is no target.
    pub fn find(&self, id: &NodeId, count: usize) -> (r: Result<Vec<NodeInfo>, DistanceIsZero>)
        ensures
            r.is_ok() <==> id@ != self.local()@,
            r matches Ok(found) ==> is_closest(found@, self.records(), id@, count as nat),
    {
        proof {
            use_type_invariant(self);
        }
        if *id == self.id {
            return Err(DistanceIsZero);
        }
        let mut all: Vec<NodeInfo> = Vec::new();
        let mut b: usize = 0;
        while b < self.buckets.len()
            invariant
                b <= self.buckets@.len(),
                all@ == all_records(self.buckets@.subrange(0, b as int)),
            decreases self.buckets@.len() - b,
        {
            let nodes = self.buckets[b].nodes();
            let ghost head = all@;
            let mut j: usize = 0;
            while j < nodes.len()
                invariant
                    j <= nodes@.len(),
                    all@ == head + nodes@.subrange(0, j as int),
                decreases nodes@.len() - j,
            {
                all.push(nodes[j]);
                j += 1;
            }
            proof {
                let longer = self.buckets@.subrange(0, b + 1);
                assert(longer.drop_last() =~= self.buckets@.subrange(0, b as int));
                assert(longer.last() == self.buckets@[b as int]);
                assert(nodes@.subrange(0, j as int) =~= nodes@);
            }
            b += 1;
        }
        proof {
            assert(self.buckets@.subrange(0, b as int) =~= self.buckets@);
            lemma_records_distinct(self.id@, self.buckets@, self.buckets@.len() as int);
        }
        Ok(closest(&all, id, count))
    }

    /// Takes the least recently seen peer out of every bucket that is full,
    /// for the caller to probe.
    pub fn pop_oldest(&mut self) -> (oldest: Vec<NodeInfo>)
        ensures
            final(self).local() == old(self).local(),
            final(self)@.len() == old(self)@.len(),
            oldest@ == oldest_of_full(old(self)@),
            forall|b: int|
                0 <= b < old(self)@.len() ==> (#[trigger] final(self)@[b]).capacity() == old(self)@[b].capacity() && final(self)@[b]@ == if gives_oldest(old(self)@[b]) {
                    old(self)@[b]@.drop_first()
                } else {
                    old(self)@[b]@
                },
            final(self).wf(),
    {
        proof {
            use_type_invariant(&*self);
        }
        let mut buckets: Vec<NodeBucket> = Vec::new();
        std::mem::swap(&mut self.buckets, &mut buckets);
        let ghost before = buckets@;
        let mut oldest: Vec<NodeInfo> = Vec::new();
        let mut b: usize = 0;
        while b < buckets.len()
            invariant
                b <= buckets@.len(),
                buckets@.len() == before.len(),
                table_wf(self.id@, before),
                oldest@ == oldest_of_full(before.subrange(0, b as int)),
                forall|k: int| b <= k < before.len() ==> buckets@[k] == before[k],
                forall|k: int|
                    0 <= k < b ==> (#[trigger] buckets@[k]).wf() && buckets@[k].capacity()
                        == before[k].capacity() && buckets@[k]@ == if gives_oldest(before[k]) {
                        before[k]@.drop_first()
                    } else {
                        before[k]@
                    },
            decreases buckets@.len() - b,
        {
            let popped = buckets[b].pop_oldest();
            proof {
                let longer = before.subrange(0, b + 1);
                assert(longer.drop_last() =~= before.subrange(0, b as int));
                assert(longer.last() == before[b as int]);
            }
            match popped {
                Some(node) => {
                    oldest.push(node);
                },
                None => {},
            }
            b += 1;
        }
        proof {
            assert(before.subrange(0, b as int) =~= before);
            assert forall|k: int| 0 <= k < buckets@.len() implies #[trigger] slot_wf(
                self.id@,
                buckets@,
                k,
            ) by {
                assert(slot_wf(self.id@, before, k));
                assert forall|j: int| 0 <= j < buckets@[k]@.len() implies placed(
                    self.id@,
                    buckets@.len(),
                    k,
                    #[trigger] buckets@[k]@[j],
                ) by {
                    if gives_oldest(before[k]) {
                        assert(buckets@[k]@[j] == before[k]@[j + 1]);
                    } else {
                        assert(buckets@[k]@[j] == before[k]@[j]);
                    }
                }
            }
        }
        self.buckets = buckets;
        oldest
    }
}

impl Clone for NodeTable {
    fn clone(&self) -> (copy: NodeTable)
        ensures
            copy.local() == self.local(),
            copy@.len() == self@.len(),
            forall|b: int|
                0 <= b < self@.len() ==> (#[trigger] copy@[b])@ == self@[b]@ && copy@[b].capacity()
                    == self@[b].capacity(),
            copy.wf(),
    {
        proof {
            use_type_invariant(self);
        }
        let mut buckets: Vec<NodeBucket> = Vec::new();
        let mut i: usize = 0;
        while i < self.buckets.len()
            invariant
                i <= self.buckets@.len(),
                buckets@.len() == i,
                forall|b: int|
                    0 <= b < i ==> (#[trigger] buckets@[b])@ == self.buckets@[b]@
                        && buckets@[b].capacity() == self.buckets@[b].capacity(),
            decreases self.buckets@.len() - i,
        {
            buckets.push(self.buckets[i].clone());
            i += 1;
        }
        assert forall|b: int| 0 <= b < buckets@.len() implies #[trigger] slot_wf(
            self.id@,
            buckets@,
            b,
        ) by {
            assert(slot_wf(self.id@, self.buckets@, b));
            assert(buckets@[b]@ == self.buckets@[b]@);
        }
        NodeTable { id: self.id, buckets }
    }
}

/// A table stays valid when one bucket changes so that each of its records
/// was in it before or is a record that may stand there.
proof fn lemma_table_wf_after(
    local: Seq<u8>,
    before: Seq<NodeBucket>,
    after: Seq<NodeBucket>,
    slot: int,
    node: NodeInfo,
)
    requires
        table_wf(local, before),
        0 <= slot < before.len(),
        after.len() == before.len(),
        forall|b: int| 0 <= b < before.len() && b != slot ==> after[b] == before[b],
        after[slot].wf(),
        placed(local, before.len(), slot, node),
        forall|j: int|
            0 <= j < after[slot]@.len() ==> {
                let rec = #[trigger] after[slot]@[j];
                rec == node || before[slot]@.contains(rec)
            },
    ensures
        table_wf(local, after),
{
    assert forall|b: int| 0 <= b < after.len() implies #[trigger] slot_wf(local, after, b) by {
        assert(slot_wf(local, before, b));
        if b == slot {
            assert forall|j: int| 0 <= j < after[slot]@.len() implies placed(
                local,
                after.len(),
                slot,
                #[trigger] after[slot]@[j],
            ) by {
                let rec = after[slot]@[j];
                if rec != node {
                    let q = choose|q: int| 0 <= q < before[slot]@.len() && before[slot]@[q] == rec;
                    assert(placed(local, before.len(), slot, before[slot]@[q]));
                }
            }
        }
    }
}

} // verus!
