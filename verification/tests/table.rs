use skademlia::error::DistanceIsZero;
use skademlia::node::{Endpoint, NodeInfo, NodeStatus};
use skademlia::node_id::NodeId;
use skademlia::store::{
    NodeTable, Outcome, Step, DEFAULT_BUCKET_COUNT, DEFAULT_BUCKET_SIZE,
};

fn id_with(first: u8, last: u8) -> NodeId {
    let mut bytes = [0u8; 32];
    bytes[0] = first;
    bytes[31] = last;
    NodeId { discohash: bytes }
}

fn id_at(index: usize, byte: u8) -> NodeId {
    let mut bytes = [0u8; 32];
    bytes[index] = byte;
    NodeId { discohash: bytes }
}

fn info(id: NodeId) -> NodeInfo {
    NodeInfo { id, socket: Endpoint::v4(127, 0, 0, 1, 8008), status: NodeStatus::Connected }
}

fn local() -> NodeId {
    NodeId { discohash: [0u8; 32] }
}

fn stored(table: &NodeTable) -> usize {
    table.buckets().iter().map(|b| b.nodes().len()).sum()
}

#[test]
fn new_table_has_the_default_shape() {
    let table = NodeTable::new(local());
    assert_eq!(DEFAULT_BUCKET_COUNT, 32);
    assert_eq!(DEFAULT_BUCKET_SIZE, 64);
    assert_eq!(table.buckets().len(), 32);
    assert!(table.buckets().iter().all(|b| b.node_count() == 64 && b.nodes().is_empty()));
    assert_eq!(table.id(), local());
}

#[test]
fn custom_table_has_the_shape_asked_for() {
    let table = NodeTable::new_custom_table(id_with(1, 2), 5, 3);
    assert_eq!(table.buckets().len(), 5);
    assert!(table.buckets().iter().all(|b| b.node_count() == 3 && b.nodes().is_empty()));
    assert_eq!(table.id(), id_with(1, 2));
}

#[test]
fn bucket_index_is_the_highest_bit_with_256_buckets() {
    let table = NodeTable::new_custom_table(local(), 256, 4);
    assert_eq!(table.bucket_index(&id_with(0, 1)), Ok(0));
    assert_eq!(table.bucket_index(&id_with(0, 2)), Ok(1));
    assert_eq!(table.bucket_index(&id_with(0, 3)), Ok(1));
    assert_eq!(table.bucket_index(&id_with(0, 0x80)), Ok(7));
    assert_eq!(table.bucket_index(&id_at(30, 1)), Ok(8));
    assert_eq!(table.bucket_index(&id_with(1, 0xff)), Ok(248));
    assert_eq!(table.bucket_index(&id_with(0x80, 0)), Ok(255));
    assert_eq!(table.bucket_index(&id_with(0xff, 0xff)), Ok(255));
}

#[test]
fn bucket_index_uses_the_top_bits_with_32_buckets() {
    let table = NodeTable::new(local());
    assert_eq!(table.bucket_index(&id_with(0x80, 0)), Ok(31));
    assert_eq!(table.bucket_index(&id_with(0x40, 0)), Ok(30));
    assert_eq!(table.bucket_index(&id_with(0x01, 0)), Ok(24));
    assert_eq!(table.bucket_index(&id_at(3, 0x02)), Ok(1));
    assert_eq!(table.bucket_index(&id_at(3, 0x01)), Ok(0));
    assert_eq!(table.bucket_index(&id_at(4, 0x80)), Ok(0));
    assert_eq!(table.bucket_index(&id_with(0, 1)), Ok(0));
}

#[test]
fn bucket_index_is_relative_to_the_local_identifier() {
    let table = NodeTable::new_custom_table(id_with(0xf0, 0), 256, 4);
    assert_eq!(table.bucket_index(&id_with(0xf1, 0)), Ok(248));
    assert_eq!(table.bucket_index(&id_with(0x70, 0)), Ok(255));
    assert_eq!(table.bucket_index(&id_with(0xf0, 4)), Ok(2));
}

#[test]
fn bucket_index_fails_for_the_local_identifier() {
    let table = NodeTable::new(id_with(9, 9));
    assert_eq!(table.bucket_index(&id_with(9, 9)), Err(DistanceIsZero));
}

#[test]
fn bucket_index_with_more_than_256_buckets() {
    let table = NodeTable::new_custom_table(local(), 300, 4);
    assert_eq!(table.bucket_index(&id_with(0x80, 0)), Ok(255));
    assert_eq!(table.bucket_index(&id_with(0, 1)), Ok(0));
}

#[test]
fn bucket_index_with_one_bucket() {
    let table = NodeTable::new_custom_table(local(), 1, 4);
    assert_eq!(table.bucket_index(&id_with(0x80, 0)), Ok(0));
    assert_eq!(table.bucket_index(&id_with(0, 1)), Ok(0));
}

#[test]
fn bucket_index_never_falls_when_the_distance_grows() {
    let table = NodeTable::new(local());
    let mut ids: Vec<NodeId> = (0..200).map(|_| NodeId::random(32)).collect();
    ids.push(id_with(0, 1));
    ids.push(id_at(3, 1));
    ids.push(id_at(3, 2));
    ids.retain(|id| *id != local());
    // the local identifier is all zero, so the distance is the identifier
    ids.sort();
    let slots: Vec<usize> = ids.iter().map(|id| table.bucket_index(id).unwrap()).collect();
    for pair in slots.windows(2) {
        assert!(pair[0] <= pair[1]);
    }
}

#[test]
fn update_stores_a_peer_in_its_bucket() {
    let mut table = NodeTable::new_custom_table(local(), 256, 4);
    let step = table.update(&info(id_with(0, 0x80)));
    assert!(matches!(step, Step::Done(Outcome::Inserted)));
    assert_eq!(table.buckets()[7].nodes().len(), 1);
    assert_eq!(table.buckets()[7].nodes()[0].id, id_with(0, 0x80));
    assert_eq!(stored(&table), 1);
    let again = table.update(&info(id_with(0, 0x80)));
    assert!(matches!(again, Step::Done(Outcome::Promoted)));
    assert_eq!(stored(&table), 1);
}

#[test]
fn update_never_accepts_the_local_identifier() {
    let mut table = NodeTable::new(id_with(4, 4));
    assert!(matches!(table.update(&info(id_with(4, 4))), Step::Done(Outcome::Rejected)));
    assert_eq!(stored(&table), 0);
    table.update(&info(id_with(4, 5)));
    assert!(matches!(table.update(&info(id_with(4, 4))), Step::Done(Outcome::Rejected)));
    assert!(matches!(
        table.resolve_probe(&info(id_with(4, 4)), &id_with(4, 5), false),
        Step::Done(Outcome::Rejected)
    ));
    assert_eq!(stored(&table), 1);
    assert!(table.buckets().iter().all(|b| b.position(&id_with(4, 4)).is_none()));
}

#[test]
fn a_table_without_buckets_stores_nothing() {
    let mut table = NodeTable::new_custom_table(local(), 0, 4);
    assert!(matches!(table.update(&info(id_with(1, 1))), Step::Done(Outcome::Rejected)));
    assert_eq!(table.bucket_index(&id_with(1, 1)), Ok(0));
    assert_eq!(table.find(&id_with(1, 1), 3), Ok(Vec::new()));
    assert!(table.pop_oldest().is_empty());
}

#[test]
fn a_full_bucket_asks_for_a_probe_of_its_head() {
    let mut table = NodeTable::new_custom_table(local(), 256, 2);
    table.update(&info(id_with(0x80, 1)));
    table.update(&info(id_with(0x80, 2)));
    let head = match table.update(&info(id_with(0x80, 3))) {
        Step::Probe(head) => head,
        Step::Done(_) => panic!("no probe was asked for"),
    };
    assert_eq!(head.id, id_with(0x80, 1));
    assert_eq!(stored(&table), 2);
    let step = table.resolve_probe(&info(id_with(0x80, 3)), &head.id, false);
    assert!(matches!(step, Step::Done(Outcome::Inserted)));
    assert_eq!(table.buckets()[255].nodes()[0].id, id_with(0x80, 2));
    assert_eq!(table.buckets()[255].nodes()[1].id, id_with(0x80, 3));
    let head = match table.update(&info(id_with(0x80, 4))) {
        Step::Probe(head) => head,
        Step::Done(_) => panic!("no probe was asked for"),
    };
    let step = table.resolve_probe(&info(id_with(0x80, 4)), &head.id, true);
    assert!(matches!(step, Step::Done(Outcome::Rejected)));
    assert_eq!(table.buckets()[255].nodes()[0].id, id_with(0x80, 3));
    assert_eq!(table.buckets()[255].nodes()[1].id, id_with(0x80, 2));
    // another bucket still has room
    assert!(matches!(table.update(&info(id_with(0x40, 1))), Step::Done(Outcome::Inserted)));
}

#[test]
fn find_ranks_across_buckets() {
    let mut table = NodeTable::new_custom_table(local(), 256, 4);
    for id in [id_with(0x80, 0), id_with(0, 1), id_with(0x40, 0), id_with(0, 0x10), id_with(1, 0)]
    {
        table.update(&info(id));
    }
    let target = id_with(0x40, 1);
    // distances: c0..01, 40..00, 00..01, 40..11, 41..01
    let found: Vec<NodeId> = table.find(&target, 3).unwrap().iter().map(|n| n.id).collect();
    assert_eq!(found, vec![id_with(0x40, 0), id_with(0, 1), id_with(0, 0x10)]);
    let all = table.find(&target, 50).unwrap();
    assert_eq!(all.len(), 5);
    assert_eq!(all[3].id, id_with(1, 0));
    assert_eq!(all[4].id, id_with(0x80, 0));
    assert_eq!(table.find(&target, 0).unwrap().len(), 0);
}

#[test]
fn find_rejects_the_local_identifier() {
    let mut table = NodeTable::new(id_with(7, 7));
    table.update(&info(id_with(1, 1)));
    assert_eq!(table.find(&id_with(7, 7), 4), Err(DistanceIsZero));
    assert_eq!(table.find(&id_with(7, 7), 0), Err(DistanceIsZero));
}

#[test]
fn find_does_not_depend_on_the_order_of_insertion() {
    let ids: Vec<NodeId> = (0..40).map(|_| NodeId::random(32)).collect();
    let target = NodeId::random(32);
    let mut forward = NodeTable::new(local());
    for id in ids.iter() {
        forward.update(&info(*id));
    }
    let mut backward = NodeTable::new(local());
    for id in ids.iter().rev() {
        backward.update(&info(*id));
    }
    let a: Vec<NodeId> = forward.find(&target, 7).unwrap().iter().map(|n| n.id).collect();
    let b: Vec<NodeId> = backward.find(&target, 7).unwrap().iter().map(|n| n.id).collect();
    let again: Vec<NodeId> = forward.find(&target, 7).unwrap().iter().map(|n| n.id).collect();
    assert_eq!(a, b);
    assert_eq!(a, again);
    assert_eq!(a.len(), 7);
    let mut expected = ids.clone();
    expected.sort_by_key(|id| {
        let mut d = [0u8; 32];
        for i in 0..32 {
            d[i] = id.discohash[i] ^ target.discohash[i];
        }
        d
    });
    expected.truncate(7);
    assert_eq!(a, expected);
}

#[test]
fn pop_oldest_takes_the_heads_of_full_buckets() {
    let mut table = NodeTable::new_custom_table(local(), 256, 2);
    table.update(&info(id_with(0x80, 1)));
    table.update(&info(id_with(0x80, 2)));
    table.update(&info(id_with(0x40, 1)));
    table.update(&info(id_with(0, 2)));
    table.update(&info(id_with(0, 3)));
    let oldest: Vec<NodeId> = table.pop_oldest().iter().map(|n| n.id).collect();
    assert_eq!(oldest, vec![id_with(0, 2), id_with(0x80, 1)]);
    assert_eq!(stored(&table), 3);
    assert_eq!(table.buckets()[1].nodes()[0].id, id_with(0, 3));
    assert_eq!(table.buckets()[254].nodes()[0].id, id_with(0x40, 1));
    assert_eq!(table.buckets()[255].nodes()[0].id, id_with(0x80, 2));
    assert!(table.pop_oldest().is_empty());
}

#[test]
fn table_clone_is_independent() {
    let mut table = NodeTable::new(local());
    table.update(&info(id_with(1, 1)));
    let copy = table.clone();
    table.update(&info(id_with(2, 2)));
    assert_eq!(stored(&copy), 1);
    assert_eq!(stored(&table), 2);
    assert_eq!(copy.id(), local());
}

#[test]
fn table_probe_target_reads_the_right_bucket() {
    let mut table = NodeTable::new_custom_table(local(), 256, 1);
    assert!(table.probe_target(&info(id_with(0x80, 1))).is_none());
    table.update(&info(id_with(0x80, 1)));
    assert_eq!(table.probe_target(&info(id_with(0x80, 2))).unwrap().id, id_with(0x80, 1));
    assert!(table.probe_target(&info(id_with(0x40, 2))).is_none());
    assert!(table.probe_target(&info(id_with(0x80, 1))).is_none());
    assert!(table.probe_target(&info(local())).is_none());
    assert_eq!(stored(&table), 1);
}
