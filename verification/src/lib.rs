//! Routing core of an S/Kademlia overlay: puzzle-hardened node identifiers,
//! the XOR metric over them, and a bucketed routing table of known peers.

pub mod bucket;
pub mod error;
pub mod key;
pub mod metric;
pub mod node;
pub mod node_id;
pub mod order;
pub mod ranking;
pub mod store;
pub mod transport;
pub mod trusted;
pub mod util;

pub use node_id::NodeId;
