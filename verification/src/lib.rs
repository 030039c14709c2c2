//! A node of a distributed hash table: the wire format of its packets, the
//! arithmetic on its 20-byte keys, and the decisions that the node takes
//! when its sockets become ready.
pub mod dhtpackettypes;
pub mod sha;
pub mod wire;
pub mod packet;
