//! The order of identifiers and of distances: that of the numbers their
//! bytes denote, most significant byte first.

use std::cmp::Ordering;
use vstd::prelude::*;
use vstd::std_specs::cmp::PartialOrdSpecImpl;

use crate::metric::{be_value, bytes_less, Distance};
use crate::node_id::NodeId;

verus! {

/// How two numbers compare.
pub open spec fn compare_values(a: nat, b: nat) -> Ordering {
    if a < b {
        Ordering::Less
    } else if a > b {
        Ordering::Greater
    } else {
        Ordering::Equal
    }
}

/// How two digests compare as numbers.
fn compare_bytes(a: &[u8; 32], b: &[u8; 32]) -> (r: Ordering)
    ensures
        r == compare_values(be_value(a@), be_value(b@)),
{
    if bytes_less(a, b) {
        Ordering::Less
    } else if bytes_less(b, a) {
        Ordering::Greater
    } else {
        Ordering::Equal
    }
}

impl PartialOrd for NodeId {
    fn partial_cmp(&self, other: &NodeId) -> (r: Option<Ordering>) {
        Some(compare_bytes(&self.discohash, &other.discohash))
    }
}

impl PartialOrdSpecImpl for NodeId {
    open spec fn obeys_partial_cmp_spec() -> bool {
        true
    }

    open spec fn partial_cmp_spec(&self, other: &NodeId) -> Option<Ordering> {
        Some(compare_values(be_value(self@), be_value(other@)))
    }
}

impl PartialOrd for Distance {
    fn partial_cmp(&self, other: &Distance) -> (r: Option<Ordering>) {
        let mine = self.to_bytes();
        let theirs = other.to_bytes();
        Some(compare_bytes(&mine, &theirs))
    }
}

impl PartialOrdSpecImpl for Distance {
    open spec fn obeys_partial_cmp_spec() -> bool {
        true
    }

    open spec fn partial_cmp_spec(&self, other: &Distance) -> Option<Ordering> {
        Some(compare_values(self@, other@))
    }
}

} // verus!
