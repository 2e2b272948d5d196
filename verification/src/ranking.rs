//! Ranking peers by their distance from a target identifier.

use vstd::prelude::*;

use crate::bucket::distinct_ids;
use crate::metric::{
    bytes_less, bytes_xor, lemma_be_value_equal, lemma_xor_bytes_injective, xor_bytes,
    xor_distance,
};
use crate::node::NodeInfo;
use crate::node_id::NodeId;

verus! {

/// The distance of the record `node` from the identifier `target`.
pub open spec fn dist_to(target: Seq<u8>, node: NodeInfo) -> nat {
    xor_distance(target, node.id@)
}

/// The records in `nodes` stand in order of strictly growing distance from
/// `target`.
pub open spec fn ascending(nodes: Seq<NodeInfo>, target: Seq<u8>) -> bool {
    forall|i: int, j: int|
        0 <= i < j < nodes.len() ==> dist_to(target, nodes[i]) < dist_to(target, nodes[j])
}

/// `found` holds the `count` records of `stored` that are closest to
/// `target`, closest first, or all of them where `stored` has fewer.
pub open spec fn is_closest(
    found: Seq<NodeInfo>,
    stored: Seq<NodeInfo>,
    target: Seq<u8>,
    count: nat,
) -> bool {
    &&& found.len() == if count < stored.len() {
        count
    } else {
        stored.len()
    }
    &&& forall|i: int| 0 <= i < found.len() ==> stored.contains(#[trigger] found[i])
    &&& ascending(found, target)
    &&& forall|k: int, i: int|
        0 <= k < stored.len() && 0 <= i < found.len() && !found.contains(stored[k])
            ==> dist_to(target, #[trigger] found[i]) < dist_to(target, #[trigger] stored[k])
}

/// Records with different identifiers are at different distances from any
/// target.
pub proof fn lemma_dist_differs(target: NodeId, a: NodeInfo, b: NodeInfo)
    requires
        a.id@ != b.id@,
    ensures
        dist_to(target@, a) != dist_to(target@, b),
{
    if dist_to(target@, a) == dist_to(target@, b) {
        lemma_be_value_equal(xor_bytes(target@, a.id@), xor_bytes(target@, b.id@));
        lemma_xor_bytes_injective(target@, a.id@, b.id@);
    }
}

/// `node` is one of the first `upto` records of `stored`.
pub open spec fn among_first(stored: Seq<NodeInfo>, upto: int, node: NodeInfo) -> bool {
    exists|j: int| 0 <= j < upto && stored[j] == node
}

/// Whether `a` is closer to `target` than `b`.
fn closer(target: &NodeId, a: &NodeInfo, b: &NodeInfo) -> (yes: bool)
    ensures
        yes == (dist_to(target@, *a) < dist_to(target@, *b)),
{
    let da = bytes_xor(&target.discohash, &a.id.discohash);
    let db = bytes_xor(&target.discohash, &b.id.discohash);
    bytes_less(&da, &db)
}

/// The `count` records of `stored` closest to `target`, closest first.
pub(crate) fn closest(stored: &Vec<NodeInfo>, target: &NodeId, count: usize) -> (found: Vec<NodeInfo>)
    requires
        distinct_ids(stored@),
    ensures
        is_closest(found@, stored@, target@, count as nat),
{
    let mut sorted: Vec<NodeInfo> = Vec::new();
    let mut k: usize = 0;
    while k < stored.len()
        invariant
            k <= stored@.len(),
            distinct_ids(stored@),
            sorted@.len() == k,
            ascending(sorted@, target@),
            forall|i: int| 0 <= i < k ==> among_first(stored@, k as int, #[trigger] sorted@[i]),
            forall|j: int| 0 <= j < k ==> sorted@.contains(#[trigger] stored@[j]),
        decreases stored@.len() - k,
    {
        let x = stored[k];
        let mut p: usize = 0;
        let mut placed = false;
        while p < sorted.len() && !placed
            invariant
                p <= sorted@.len(),
                sorted@.len() == k,
                k < stored@.len(),
                x == stored@[k as int],
                distinct_ids(stored@),
                forall|i: int|
                    0 <= i < k ==> among_first(stored@, k as int, #[trigger] sorted@[i]),
                forall|i: int| 0 <= i < p ==> dist_to(target@, sorted@[i]) < dist_to(target@, x),
                placed ==> p < sorted@.len() && dist_to(target@, x) < dist_to(
                    target@,
                    sorted@[p as int],
                ),
            decreases sorted@.len() - p + if placed { 0int } else { 1int },
        {
            if closer(target, &x, &sorted[p]) {
                placed = true;
            } else {
                proof {
                    assert(among_first(stored@, k as int, sorted@[p as int]));
                    let j = choose|j: int| 0 <= j < k && stored@[j] == sorted@[p as int];
                    assert(stored@[j].id@ != stored@[k as int].id@);
                    lemma_dist_differs(*target, sorted@[p as int], x);
                }
                p += 1;
            }
        }
        let ghost before = sorted@;
        sorted.insert(p, x);
        proof {
            let after = sorted@;
            assert(after.len() == k + 1);
            assert(after[p as int] == x);
            assert forall|i: int| 0 <= i < p implies after[i] == before[i] by {}
            assert forall|i: int| p < i < after.len() implies after[i] == before[i - 1] by {}
            assert forall|i: int, j: int| 0 <= i < j < after.len() implies dist_to(
                target@,
                after[i],
            ) < dist_to(target@, after[j]) by {
                if j < p {
                    assert(dist_to(target@, before[i]) < dist_to(target@, before[j]));
                } else if j == p {
                } else if i < p {
                    assert(dist_to(target@, before[i]) < dist_to(target@, before[j - 1]));
                } else if i == p {
                    if j - 1 > p {
                        assert(dist_to(target@, before[p as int]) < dist_to(
                            target@,
                            before[j - 1],
                        ));
                    }
                } else {
                    assert(dist_to(target@, before[i - 1]) < dist_to(target@, before[j - 1]));
                }
            }
            assert forall|i: int| 0 <= i < k + 1 implies among_first(
                stored@,
                k + 1,
                #[trigger] after[i],
            ) by {
                if i < p {
                    assert(among_first(stored@, k as int, before[i]));
                    let j = choose|j: int| 0 <= j < k && stored@[j] == before[i];
                    assert(stored@[j] == after[i]);
                } else if i == p {
                    assert(stored@[k as int] == after[i]);
                } else {
                    assert(among_first(stored@, k as int, before[i - 1]));
                    let j = choose|j: int| 0 <= j < k && stored@[j] == before[i - 1];
                    assert(stored@[j] == after[i]);
                }
            }
            assert forall|j: int| 0 <= j < k + 1 implies after.contains(
                #[trigger] stored@[j],
            ) by {
                if j < k {
                    assert(before.contains(stored@[j]));
                    let i = choose|i: int| 0 <= i < before.len() && before[i] == stored@[j];
                    if i < p {
                        assert(after[i] == stored@[j]);
                    } else {
                        assert(after[i + 1] == stored@[j]);
                    }
                } else {
                    assert(after[p as int] == stored@[j]);
                }
            }
        }
        k += 1;
    }
    let ghost all = sorted@;
    if count < sorted.len() {
        sorted.truncate(count);
    }
    proof {
        let found = sorted@;
        assert forall|i: int| 0 <= i < found.len() implies found[i] == all[i] by {}
        assert forall|i: int| 0 <= i < found.len() implies stored@.contains(
            #[trigger] found[i],
        ) by {
            assert(among_first(stored@, stored@.len() as int, all[i]));
            let j = choose|j: int| 0 <= j < stored@.len() && stored@[j] == all[i];
            assert(stored@[j] == found[i]);
        }
        assert forall|i: int, j: int| 0 <= i < j < found.len() implies dist_to(
            target@,
            found[i],
        ) < dist_to(target@, found[j]) by {
            assert(dist_to(target@, all[i]) < dist_to(target@, all[j]));
        }
        assert forall|k: int, i: int|
            0 <= k < stored@.len() && 0 <= i < found.len() && !found.contains(
                stored@[k],
            ) implies dist_to(target@, #[trigger] found[i]) < dist_to(
            target@,
            #[trigger] stored@[k],
        ) by {
            assert(all.contains(stored@[k]));
            let q = choose|q: int| 0 <= q < all.len() && all[q] == stored@[k];
            if q < found.len() {
                assert(found[q] == stored@[k]);
            }
            assert(dist_to(target@, all[i]) < dist_to(target@, all[q]));
        }
    }
    sorted
}

/// The closest records are determined by the set of stored records alone:
/// two rankings of the same records, in whatever order these were stored,
/// are equal.
pub proof fn law_closest_is_unique(
    first: Seq<NodeInfo>,
    second: Seq<NodeInfo>,
    target: NodeId,
    count: nat,
    found_first: Seq<NodeInfo>,
    found_second: Seq<NodeInfo>,
)
    requires
        distinct_ids(first),
        distinct_ids(second),
        first.to_set() == second.to_set(),
        is_closest(found_first, first, target@, count),
        is_closest(found_second, second, target@, count),
    ensures
        found_first == found_second,
{
    lemma_distinct_no_duplicates(first);
    lemma_distinct_no_duplicates(second);
    first.unique_seq_to_set();
    second.unique_seq_to_set();
    assert(first.len() == second.len());
    assert(found_first.len() == found_second.len());
    lemma_closest_agree(
        first,
        second,
        target,
        count,
        found_first,
        found_second,
        found_first.len() as int,
    );
    assert(found_first =~= found_second);
}

/// Records with distinct identifiers are distinct.
pub proof fn lemma_distinct_no_duplicates(nodes: Seq<NodeInfo>)
    requires
        distinct_ids(nodes),
    ensures
        nodes.no_duplicates(),
{
    assert forall|i: int, j: int| 0 <= i < nodes.len() && 0 <= j < nodes.len() && i != j implies nodes[i]
        != nodes[j] by {
        if i < j {
            assert(nodes[i].id@ != nodes[j].id@);
        } else {
            assert(nodes[j].id@ != nodes[i].id@);
        }
    }
}

/// Two records of one sequence with distinct identifiers that have the same
/// identifier are the same record.
proof fn lemma_same_id_same_record(nodes: Seq<NodeInfo>, a: NodeInfo, b: NodeInfo)
    requires
        distinct_ids(nodes),
        nodes.contains(a),
        nodes.contains(b),
        a.id@ == b.id@,
    ensures
        a == b,
{
    let i = choose|i: int| 0 <= i < nodes.len() && nodes[i] == a;
    let j = choose|j: int| 0 <= j < nodes.len() && nodes[j] == b;
    if i < j {
        assert(nodes[i].id@ != nodes[j].id@);
    }
    if j < i {
        assert(nodes[j].id@ != nodes[i].id@);
    }
}

/// Two rankings of the same records agree on their first `upto` places.
proof fn lemma_closest_agree(
    first: Seq<NodeInfo>,
    second: Seq<NodeInfo>,
    target: NodeId,
    count: nat,
    fa: Seq<NodeInfo>,
    fb: Seq<NodeInfo>,
    upto: int,
)
    requires
        distinct_ids(first),
        distinct_ids(second),
        first.to_set() == second.to_set(),
        is_closest(fa, first, target@, count),
        is_closest(fb, second, target@, count),
        fa.len() == fb.len(),
        0 <= upto <= fa.len(),
    ensures
        forall|i: int| 0 <= i < upto ==> fa[i] == fb[i],
    decreases upto,
{
    if upto > 0 {
        lemma_closest_agree(first, second, target, count, fa, fb, upto - 1);
        let n = upto - 1;
        let a = fa[n];
        let b = fb[n];
        assert(first.contains(a));
        assert(second.contains(b));
        assert(first.to_set().contains(a));
        assert(second.to_set().contains(a));
        assert(second.contains(a));
        assert(second.to_set().contains(b));
        assert(first.to_set().contains(b));
        assert(first.contains(b));
        lemma_ranked_no_closer(second, target, count, fb, fa, n);
        lemma_ranked_no_closer(first, target, count, fa, fb, n);
        if a.id@ != b.id@ {
            lemma_dist_differs(target, a, b);
        }
        lemma_same_id_same_record(first, a, b);
    }
}

/// Where another ascending sequence of stored records agrees with a ranking
/// before place `n`, its record in place `n` is no closer than the
/// ranking's.
proof fn lemma_ranked_no_closer(
    stored: Seq<NodeInfo>,
    target: NodeId,
    count: nat,
    ranking: Seq<NodeInfo>,
    other: Seq<NodeInfo>,
    n: int,
)
    requires
        is_closest(ranking, stored, target@, count),
        ascending(other, target@),
        ranking.len() == other.len(),
        0 <= n < ranking.len(),
        forall|i: int| 0 <= i < n ==> other[i] == ranking[i],
        stored.contains(other[n]),
    ensures
        dist_to(target@, ranking[n]) <= dist_to(target@, other[n]),
{
    let x = other[n];
    let k = choose|k: int| 0 <= k < stored.len() && stored[k] == x;
    if ranking.contains(x) {
        let q = choose|q: int| 0 <= q < ranking.len() && ranking[q] == x;
        if q < n {
            assert(other[q] == x);
            assert(dist_to(target@, other[q]) < dist_to(target@, other[n]));
        } else if q > n {
            assert(dist_to(target@, ranking[n]) < dist_to(target@, ranking[q]));
        }
    } else {
        assert(dist_to(target@, ranking[n]) < dist_to(target@, stored[k]));
    }
}

} // verus!
