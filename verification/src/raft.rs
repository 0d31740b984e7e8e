//! The Raft protocol.

pub mod coordinator;
pub mod guarantees;
pub mod invariants;
pub mod laws;
pub mod model;
pub mod net;
pub mod node;
pub mod proto;
pub mod reference_model;
pub mod rpc;
pub mod sim_harness;
pub mod sim_transport;
pub mod storage;
pub mod timer;
pub mod transport;
