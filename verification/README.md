# dht_node

A node of a small distributed hash table, verified with Verus.

- `src/wire.rs`: the packet format (two 20-byte keys, request type, payload
  length, payload) and the proof that a packet's header reads back what was
  written.
- `src/sha.rs`: node keys (the `sha1` crate's digest of the address, which
  is SHA-1 except for inputs of length 55 modulo 64), byte-wise key difference,
  and the lexicographic order of keys with its laws.
- `src/packet.rs`: the node's state and its decisions, as actions, when a
  packet arrives, a socket becomes ready, or a command is given.
- `src/dhtpackettypes.rs`: the request types.
- `app/main.rs`: the program that owns the sockets and runs mio's event
  loop, performing the library's actions.
