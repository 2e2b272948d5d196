//! The record kept of a known peer.

use vstd::prelude::*;
use vstd::std_specs::cmp::PartialEqSpecImpl;

use crate::node_id::NodeId;

verus! {

/// Whether a peer is connected.
#[derive(PartialEq, Eq, Debug, Copy, Clone, Structural)]
pub enum NodeStatus {
    /// Node is connected.
    Connected,
    /// Node is not connected.
    Disconnected,
}

/// An IP address, version 4 or 6, as its bytes in network order.
#[derive(Debug, Copy, Clone)]
pub enum IpAddress {
    V4([u8; 4]),
    V6([u8; 16]),
}

/// A network endpoint: an IP address and a port.
#[derive(Debug, Copy, Clone)]
pub struct Endpoint {
    pub ip: IpAddress,
    pub port: u16,
}

/// A known peer: its identifier, where to reach it, and whether it is
/// connected. Two records are the same peer when their identifiers are
/// equal; address and status may change over a peer's life.
#[derive(Clone, Copy, Debug)]
pub struct NodeInfo {
    /// Identifier
    pub id: NodeId,
    /// IP address and port
    pub socket: Endpoint,
    /// Status of the node
    pub status: NodeStatus,
}

impl Endpoint {
    /// The endpoint at an IPv4 address.
    pub fn v4(a: u8, b: u8, c: u8, d: u8, port: u16) -> (e: Endpoint)
        ensures
            e.port == port,
            e.ip matches IpAddress::V4(octets) && octets@ == seq![a, b, c, d],
    {
        let octets: [u8; 4] = [a, b, c, d];
        assert(octets@ =~= seq![a, b, c, d]);
        Endpoint { ip: IpAddress::V4(octets), port }
    }
}

impl NodeInfo {
    /// The record of the peer `id` at `socket`.
    pub fn new(id: NodeId, socket: Endpoint, status: NodeStatus) -> (node: NodeInfo)
        ensures
            node == (NodeInfo { id, socket, status }),
    {
        NodeInfo { id, socket, status }
    }

    /// Get node's IP address
    pub fn ip(&self) -> (ip: IpAddress)
        ensures
            ip == self.socket.ip,
    {
        self.socket.ip
    }

    /// Get node's port
    pub fn port(&self) -> (port: u16)
        ensures
            port == self.socket.port,
    {
        self.socket.port
    }

    /// The same record with another status.
    pub fn with_status(&self, status: NodeStatus) -> (node: NodeInfo)
        ensures
            node == (NodeInfo { id: self.id, socket: self.socket, status }),
    {
        NodeInfo { id: self.id, socket: self.socket, status }
    }
}

impl PartialEq for NodeInfo {
    fn eq(&self, other: &NodeInfo) -> (same: bool) {
        self.id == other.id
    }
}

impl PartialEqSpecImpl for NodeInfo {
    open spec fn obeys_eq_spec() -> bool {
        true
    }

    open spec fn eq_spec(&self, other: &NodeInfo) -> bool {
        self.id@ == other.id@
    }
}

impl PartialEq<NodeInfo> for NodeId {
    fn eq(&self, other: &NodeInfo) -> (same: bool) {
        *self == other.id
    }
}

impl PartialEqSpecImpl<NodeInfo> for NodeId {
    open spec fn obeys_eq_spec() -> bool {
        true
    }

    open spec fn eq_spec(&self, other: &NodeInfo) -> bool {
        self@ == other.id@
    }
}

impl PartialEq<Vec<u8>> for NodeId {
    fn eq(&self, other: &Vec<u8>) -> (same: bool) {
        if other.len() != 32 {
            return false;
        }
        let mut i: usize = 0;
        while i < 32
            invariant
                i <= 32,
                other@.len() == 32,
                forall|j: int| 0 <= j < i ==> self@[j] == other@[j],
            decreases 32 - i,
        {
            if self.discohash[i] != other[i] {
                return false;
            }
            i += 1;
        }
        assert(self@ =~= other@);
        true
    }
}

impl PartialEqSpecImpl<Vec<u8>> for NodeId {
    open spec fn obeys_eq_spec() -> bool {
        true
    }

    open spec fn eq_spec(&self, other: &Vec<u8>) -> bool {
        self@ == other@
    }
}

} // verus!
