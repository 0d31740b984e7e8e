# oxide_kv

A replicated key-value store whose decisions are verified with Verus.

The library (`src/`) holds what a node decides: elections with a pre-vote,
log replication, snapshots, membership changes by joint consensus,
linearizable reads, two-phase commit, the wire formats, the answers to clients
and the metrics. It does no I/O. The program (`app/`) moves bytes between the
library, sockets, files and clocks.

| Module | What it holds |
|---|---|
| `protocol` | commands, configurations, quorums |
| `state_machine` | the store and the staged transactions |
| `raft::model` | the transitions of a node as mathematics |
| `raft::node` | the node itself, proved to follow the model |
| `raft::laws` | what every event keeps |
| `raft::coordinator` | the leader's side of a transaction |
| `raft::storage` | the image of a node's files, and the log file's format |
| `raft::proto`, `coordination`, `message`, `schema`, `wire` | the messages between nodes and their bytes |
| `raft::transport`, `raft::net`, `raft::sim_transport` | frames, errors, and a network in memory |
| `raft::timer` | when an election starts |
| `raft::invariants`, `raft::reference_model`, `raft::sim_harness` | safety checks of a simulated cluster |
| `client`, `sdk`, `json` | both sides of the client protocol |
| `observability` | metrics, their endpoint, trace spans |
| `text`, `text_map`, `time`, `data`, `config` | what the others build on |

A host uses a node in steps: it sets the node's clock, calls the node, performs
the writes that the node's storage has noted, and only then sends what the call
returned.
