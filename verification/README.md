# citadel

The decision logic of a Citadel mesh node, written in Verus and proved against
its contracts.

Nodes join the mesh by claiming SPIRAL slots; everything a node learns (slot
claims, peer lists, admin lists) is flooded to its neighbours (SPORE). The
library holds the node's mesh state and decides, for every message a peer
sends, how the state changes and what is flooded on.

## Layout

- `src/` — the verified library
  - `mesh.rs`: mesh state, slot claiming and validation, peer bookkeeping, the
    handling of each peer message, and the laws that hold across calls
    (claims are never lost or stolen, SPORE delivery and convergence, ...)
  - `json.rs`, `message.rs`: received lines parsed into JSON values and decoded
    into peer messages
  - `threshold.rs`: the consensus threshold by mesh size, with its laws
  - `identity.rs`: PeerIDs (double BLAKE3) and content identifiers
  - `admin.rs`: what each admin command asks of storage and what it answers
  - `transfer.rs`: packet headers, packets and length-prefixed frames
  - `simulation.rs`: the mesh-assembly simulation and its event log
  - `traffic.rs`: the integer side of the traffic simulation
  - `models/`: categories, releases and metadata records
- `tests/` — tests of the library on concrete values
- `app/` — the node around the library: TCP mesh service, UDP transport, admin
  socket and CLI, JSON encodings, and the floating-point traffic animation

The SPIRAL topology (slot coordinates and neighbours) and node storage are
supplied to the app through the traits in `app/env.rs`.
