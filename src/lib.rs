//! A gossip node's membership state and the decisions of its gossip loop: who is known,
//! how inbound connections and pulled registries change that, which peers are evicted after
//! a failed push, and when the loop stops.

/// IP and socket addresses as plain values.
pub mod address;
/// Node descriptors and the validation of a node's own configuration.
pub mod peer;
/// The registry of known peers, one descriptor per address.
pub mod registry;
/// The node state: handshakes, merges, evictions and the tick plan.
pub mod application_state;
/// The payload pushed between nodes.
pub mod message;
