//! A peer's standing, for layers above the routing table.

use vstd::prelude::*;

verus! {

/// A score kept of a peer, by whether it is connected.
#[derive(PartialEq, Eq, Debug, Copy, Clone)]
pub enum NodeScore<T> {
    /// The node is considered connected.
    Connected(T),
    /// Node is not connected
    NotConnected(T),
}

impl<T> NodeScore<T> {
    /// Whether the score is that of a connected node.
    pub fn is_connected(&self) -> (yes: bool)
        ensures
            yes == (*self is Connected),
    {
        match self {
            NodeScore::Connected(_) => true,
            NodeScore::NotConnected(_) => false,
        }
    }

    /// The score itself.
    pub fn score(&self) -> (s: &T)
        ensures
            *s == (match *self {
                NodeScore::Connected(t) => t,
                NodeScore::NotConnected(t) => t,
            }),
    {
        match self {
            NodeScore::Connected(t) => t,
            NodeScore::NotConnected(t) => t,
        }
    }
}

} // verus!
