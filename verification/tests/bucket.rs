use skademlia::node::{Endpoint, IpAddress, NodeInfo, NodeStatus};
use skademlia::node_id::NodeId;
use skademlia::store::{NodeBucket, Outcome, Step};

fn new_node_info(id: NodeId) -> NodeInfo {
    let socket = Endpoint::v4(127, 0, 0, 1, 8080);
    let status = NodeStatus::Connected;
    NodeInfo { id, socket, status }
}

fn peer(tag: u8) -> NodeInfo {
    let mut bytes = [0u8; 32];
    bytes[31] = tag;
    new_node_info(NodeId { discohash: bytes })
}

fn new_node_bucket(node_count: usize) -> NodeBucket {
    let mut bucket = NodeBucket::new(node_count);
    for _ in 0..node_count {
        let id = NodeId::generate().unwrap();
        let new_node = new_node_info(id);
        bucket.update(&new_node);
    }
    bucket
}

fn tags(bucket: &NodeBucket) -> Vec<u8> {
    bucket.nodes().iter().map(|n| n.id.discohash[31]).collect()
}

fn done(step: Step) -> Outcome {
    match step {
        Step::Done(outcome) => outcome,
        Step::Probe(_) => panic!("a probe was asked for"),
    }
}

fn probe(step: Step) -> NodeInfo {
    match step {
        Step::Probe(head) => head,
        Step::Done(_) => panic!("no probe was asked for"),
    }
}

#[test]
fn construct_node_info_succeeds() {
    let socket = Endpoint::v4(127, 0, 0, 1, 8080);
    let id = NodeId::generate().unwrap();
    let status = NodeStatus::Connected;
    let new_node = NodeInfo { id, socket, status };
    assert_eq!(new_node.port(), 8080);
    assert!(matches!(new_node.ip(), IpAddress::V4([127, 0, 0, 1])));
}

#[test]
fn new_node_info_succeeds() {
    let id = NodeId::generate().unwrap();
    let new_node = new_node_info(id);
    assert_eq!(new_node.port(), 8080);
    assert!(matches!(new_node.ip(), IpAddress::V4([127, 0, 0, 1])));
}

#[test]
fn new_node_bucket_succeeds() {
    let new_bucket = new_node_bucket(10);
    assert_eq!(new_bucket.nodes().len(), 10);
}

#[test]
fn records_are_equal_by_identifier_alone() {
    let a = peer(1);
    let moved = NodeInfo {
        id: a.id,
        socket: Endpoint::v4(10, 0, 0, 7, 9),
        status: NodeStatus::Disconnected,
    };
    assert!(a == moved);
    assert!(a != peer(2));
    assert!(matches!(a.with_status(NodeStatus::Disconnected).status, NodeStatus::Disconnected));
    assert_eq!(a.with_status(NodeStatus::Disconnected).port(), 8080);
}

#[test]
fn new_bucket_is_empty() {
    let bucket = NodeBucket::new(7);
    assert_eq!(bucket.nodes().len(), 0);
    assert_eq!(bucket.node_count(), 7);
}

#[test]
fn three_peers_fill_a_bucket_of_three() {
    let mut bucket = NodeBucket::new(3);
    assert_eq!(done(bucket.update(&peer(1))), Outcome::Inserted);
    assert_eq!(done(bucket.update(&peer(2))), Outcome::Inserted);
    assert_eq!(done(bucket.update(&peer(3))), Outcome::Inserted);
    assert_eq!(bucket.nodes().len(), 3);
    assert_eq!(tags(&bucket), vec![1, 2, 3]);
}

#[test]
fn a_silent_head_is_evicted_for_the_fourth_peer() {
    let mut bucket = NodeBucket::new(3);
    for tag in 1..=3 {
        bucket.update(&peer(tag));
    }
    let head = probe(bucket.update(&peer(4)));
    assert_eq!(head.id, peer(1).id);
    assert_eq!(tags(&bucket), vec![1, 2, 3]);
    assert_eq!(done(bucket.resolve_probe(&peer(4), &head.id, false)), Outcome::Inserted);
    assert_eq!(tags(&bucket), vec![2, 3, 4]);
    assert!(bucket.position(&peer(1).id).is_none());
    assert_eq!(bucket.position(&peer(4).id), Some(2));
}

#[test]
fn a_live_head_moves_to_the_tail_and_the_fourth_peer_is_rejected() {
    let mut bucket = NodeBucket::new(3);
    for tag in 1..=3 {
        bucket.update(&peer(tag));
    }
    let head = probe(bucket.update(&peer(4)));
    assert_eq!(done(bucket.resolve_probe(&peer(4), &head.id, true)), Outcome::Rejected);
    assert_eq!(tags(&bucket), vec![2, 3, 1]);
    assert!(bucket.position(&peer(4).id).is_none());
}

#[test]
fn a_known_peer_is_promoted_with_its_new_record() {
    let mut bucket = NodeBucket::new(3);
    for tag in 1..=3 {
        bucket.update(&peer(tag));
    }
    let moved = NodeInfo {
        id: peer(1).id,
        socket: Endpoint::v4(10, 0, 0, 7, 9),
        status: NodeStatus::Connected,
    };
    assert_eq!(done(bucket.update(&moved)), Outcome::Promoted);
    assert_eq!(tags(&bucket), vec![2, 3, 1]);
    assert_eq!(bucket.nodes()[2].port(), 9);
    assert_eq!(done(bucket.update(&peer(1))), Outcome::Promoted);
    assert_eq!(tags(&bucket), vec![2, 3, 1]);
    assert_eq!(bucket.nodes()[2].port(), 8080);
    assert_eq!(bucket.nodes().len(), 3);
}

#[test]
fn a_stale_probe_answer_is_not_applied() {
    let mut bucket = NodeBucket::new(2);
    bucket.update(&peer(1));
    bucket.update(&peer(2));
    let head = probe(bucket.update(&peer(3)));
    assert_eq!(head.id, peer(1).id);
    // peer 1 is heard from while the probe is under way
    assert_eq!(done(bucket.update(&peer(1))), Outcome::Promoted);
    assert_eq!(tags(&bucket), vec![2, 1]);
    // the answer for peer 1 no longer fits: peer 2 is to be probed
    let next = probe(bucket.resolve_probe(&peer(3), &head.id, false));
    assert_eq!(next.id, peer(2).id);
    assert_eq!(tags(&bucket), vec![2, 1]);
    assert_eq!(done(bucket.resolve_probe(&peer(3), &next.id, false)), Outcome::Inserted);
    assert_eq!(tags(&bucket), vec![1, 3]);
}

#[test]
fn a_probe_answer_for_a_peer_already_stored_promotes_it() {
    let mut bucket = NodeBucket::new(2);
    bucket.update(&peer(1));
    bucket.update(&peer(2));
    assert_eq!(done(bucket.resolve_probe(&peer(2), &peer(1).id, false)), Outcome::Promoted);
    assert_eq!(tags(&bucket), vec![1, 2]);
    assert_eq!(done(bucket.resolve_probe(&peer(1), &peer(1).id, true)), Outcome::Promoted);
    assert_eq!(tags(&bucket), vec![2, 1]);
}

#[test]
fn a_probe_answer_for_a_bucket_with_room_inserts() {
    let mut bucket = NodeBucket::new(3);
    bucket.update(&peer(1));
    assert_eq!(done(bucket.resolve_probe(&peer(2), &peer(1).id, true)), Outcome::Inserted);
    assert_eq!(tags(&bucket), vec![1, 2]);
}

#[test]
fn a_bucket_without_capacity_rejects() {
    let mut bucket = NodeBucket::new(0);
    assert_eq!(done(bucket.update(&peer(1))), Outcome::Rejected);
    assert_eq!(done(bucket.resolve_probe(&peer(1), &peer(2).id, false)), Outcome::Rejected);
    assert_eq!(bucket.nodes().len(), 0);
    assert!(bucket.pop_oldest().is_none());
}

#[test]
fn outcomes_say_whether_the_peer_is_stored() {
    assert!(Outcome::Inserted.accepted());
    assert!(Outcome::Promoted.accepted());
    assert!(!Outcome::Rejected.accepted());
}

#[test]
fn position_finds_a_peer_by_identifier() {
    let mut bucket = NodeBucket::new(4);
    for tag in [5, 6, 7] {
        bucket.update(&peer(tag));
    }
    assert_eq!(bucket.position(&peer(5).id), Some(0));
    assert_eq!(bucket.position(&peer(7).id), Some(2));
    assert_eq!(bucket.position(&peer(8).id), None);
}

#[test]
fn update_status_keeps_the_position() {
    let mut bucket = NodeBucket::new(3);
    for tag in 1..=3 {
        bucket.update(&peer(tag));
    }
    assert!(bucket.update_status(&peer(2).id, NodeStatus::Disconnected));
    assert_eq!(tags(&bucket), vec![1, 2, 3]);
    assert!(matches!(bucket.nodes()[1].status, NodeStatus::Disconnected));
    assert!(matches!(bucket.nodes()[0].status, NodeStatus::Connected));
    assert!(matches!(bucket.nodes()[2].status, NodeStatus::Connected));
    assert_eq!(bucket.nodes()[1].port(), 8080);
    assert!(!bucket.update_status(&peer(9).id, NodeStatus::Disconnected));
    assert_eq!(tags(&bucket), vec![1, 2, 3]);
}

#[test]
fn bucket_find_ranks_by_distance() {
    let mut bucket = NodeBucket::new(8);
    for tag in [0x10, 0x01, 0x08, 0x03, 0x40] {
        bucket.update(&peer(tag));
    }
    let target = peer(0x02).id;
    // distances: 0x12, 0x03, 0x0a, 0x01, 0x42
    let found: Vec<u8> = bucket.find(&target, 3).iter().map(|n| n.id.discohash[31]).collect();
    assert_eq!(found, vec![0x03, 0x01, 0x08]);
    let all: Vec<u8> = bucket.find(&target, 99).iter().map(|n| n.id.discohash[31]).collect();
    assert_eq!(all, vec![0x03, 0x01, 0x08, 0x10, 0x40]);
    assert!(bucket.find(&target, 0).is_empty());
    assert_eq!(tags(&bucket), vec![0x10, 0x01, 0x08, 0x03, 0x40]);
}

#[test]
fn bucket_find_puts_the_target_itself_first() {
    let mut bucket = NodeBucket::new(8);
    for tag in [0x10, 0x01, 0x08] {
        bucket.update(&peer(tag));
    }
    let found: Vec<u8> =
        bucket.find(&peer(0x08).id, 2).iter().map(|n| n.id.discohash[31]).collect();
    assert_eq!(found, vec![0x08, 0x01]);
}

#[test]
fn bucket_find_on_an_empty_bucket() {
    let bucket = NodeBucket::new(8);
    assert!(bucket.find(&peer(1).id, 5).is_empty());
}

#[test]
fn pop_oldest_takes_the_head_of_a_full_bucket_only() {
    let mut bucket = NodeBucket::new(3);
    bucket.update(&peer(1));
    bucket.update(&peer(2));
    assert!(bucket.pop_oldest().is_none());
    assert_eq!(tags(&bucket), vec![1, 2]);
    bucket.update(&peer(3));
    assert_eq!(bucket.pop_oldest().unwrap().id, peer(1).id);
    assert_eq!(tags(&bucket), vec![2, 3]);
    assert!(bucket.pop_oldest().is_none());
}

#[test]
fn bucket_clone_is_independent() {
    let mut bucket = NodeBucket::new(3);
    bucket.update(&peer(1));
    let copy = bucket.clone();
    bucket.update(&peer(2));
    assert_eq!(tags(&copy), vec![1]);
    assert_eq!(copy.node_count(), 3);
    assert_eq!(tags(&bucket), vec![1, 2]);
}

#[test]
fn probe_target_is_the_head_of_a_full_bucket_of_other_peers() {
    let mut bucket = NodeBucket::new(2);
    assert!(bucket.probe_target(&peer(1)).is_none());
    bucket.update(&peer(1));
    assert!(bucket.probe_target(&peer(2)).is_none());
    bucket.update(&peer(2));
    assert_eq!(bucket.probe_target(&peer(3)).unwrap().id, peer(1).id);
    assert!(bucket.probe_target(&peer(2)).is_none());
    assert!(bucket.probe_target(&peer(1)).is_none());
    assert_eq!(tags(&bucket), vec![1, 2]);
    assert!(NodeBucket::new(0).probe_target(&peer(1)).is_none());
}

#[test]
fn an_identifier_equals_the_record_and_the_bytes_that_hold_it() {
    let a = peer(1);
    assert!(a.id == a);
    assert!(a.id != peer(2));
    let mut bytes = vec![0u8; 32];
    bytes[31] = 1;
    assert!(a.id == bytes);
    bytes[0] = 1;
    assert!(a.id != bytes);
    assert!(a.id != vec![0u8; 31]);
    assert!(a.id != Vec::<u8>::new());
}
