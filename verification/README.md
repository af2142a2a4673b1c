# crowdb

Tools around a cluster of key-value servers, disk databases and chunk
databases. `src/` is the library, in Verus: every function states what it
returns and changes, and all but the wrappers around outside code are proved to
do so.

- `console/`: the registry of racks, nodes, servers, stores, groups and disks;
  how it is kept; the operations on it; how servers are started, waited for and
  stopped.
- `kv/`: the registry of service instances, and the arguments and results of
  the C interface.
- `chunk/`, `chunkdb/`, `diskdb/`, `diskio.rs`: writing objects as coded strips
  of chunks, and the requests and replies of the services involved.
- `rpc/`: endpoints and pools of connections.
- `metrics/`: latency histograms and what the process uses.
- `text.rs`, `scan.rs`, `lists.rs`, `ordered.rs`, `blocks.rs`: what the rest is
  built on.

Functions that decide take what was read as plain values, and return what is to
be done. `app/` does it: files, processes, clocks, connections. It reads what
Linux reports under `/proc`, and asks `ps` elsewhere. What other programs
provide it takes through the traits of `app/seams.rs` and the `*Wire` traits
beside the clients.

Not everything is proved. The functions marked `#[verifier::external_body]`, the
`assume_specification` items and the types declared with
`external_type_specification` stand for outside crates and for parts of the
standard library; their contracts are believed. The comment above each says what
it takes for granted. `app/` is ordinary Rust and is not verified at all.
