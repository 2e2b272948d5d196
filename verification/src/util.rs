//! Random values, for tests and for filling tables.

use vstd::prelude::*;

use crate::node_id::NodeId;

verus! {

/// Types of which a random value can be drawn.
pub trait Random<T> {
    /// A value made from `len` random bytes.
    fn random(len: usize) -> T;
}

impl Random<NodeId> for NodeId {
    /// An identifier whose first `len` bytes are random and whose other
    /// bytes are zero. No key pair stands behind it.
    fn random(len: usize) -> (id: NodeId)
        ensures
            forall|i: int| len <= i < 32 ==> id@[i] == 0,
    {
        NodeId::random(len)
    }
}

} // verus!
