//! A replicated key-value store: the decisions of a Raft node, its state
//! machine and two-phase commit, the protocols it speaks, and the checks that
//! hold a simulated cluster to its safety properties.

pub mod client;
pub mod config;
pub mod coordination;
pub mod data;
pub mod json;
pub mod message;
pub mod observability;
pub mod protocol;
pub mod schema;
pub mod sdk;
pub mod state_machine;
pub mod text;
pub mod text_map;
pub mod time;
pub mod wire;
pub mod raft;
