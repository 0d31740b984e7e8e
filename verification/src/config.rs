//! Timing and sizing of a node.

use crate::data::Duplicate;
use crate::text::str_equal;
use vstd::prelude::*;

verus! {

/// Milliseconds between two heartbeats of a leader.
pub const HEARTBEAT_INTERVAL_MS: u64 = 250;

/// The shortest election timeout, in milliseconds.
pub const MIN_ELECTION_TIMEOUT_MS: u64 = 5_000;

/// The longest election timeout, in milliseconds.
pub const MAX_ELECTION_TIMEOUT_MS: u64 = 10_000;

/// The size of the log file from which on a snapshot is taken, in bytes.
pub const SNAPSHOT_THRESHOLD_BYTES: u64 = 67_108_864;

/// How long a transaction may stay undecided, in milliseconds.
pub const TX_TIMEOUT_MS: u64 = 30_000;

/// Where a node listens, whom it knows, and where it keeps its files.
#[derive(Debug, Clone, PartialEq)]
pub struct Config {
    pub node_id: String,
    pub listen_addr: String,
    pub client_addr: String,
    pub peers: Vec<String>,
    pub data_dir: Option<String>,
}

/// What a node is started with.
#[derive(Debug, Clone, PartialEq)]
pub struct Args {
    pub addr: String,
    pub client_addr: String,
    pub peers: Vec<String>,
    pub data_dir: Option<String>,
    pub metrics_addr: String,
}

impl Args {
    /// The configuration of a node that is started so: it goes by its address.
    pub fn config(&self) -> (config: Config)
        ensures
            config.node_id@ == self.addr@,
            config.listen_addr@ == self.addr@,
            config.client_addr@ == self.client_addr@,
            config.peers.deep_view() == self.peers.deep_view(),
            config.data_dir.deep_view() == self.data_dir.deep_view(),
    {
        Config {
            node_id: self.addr.clone(),
            listen_addr: self.addr.clone(),
            client_addr: self.client_addr.clone(),
            peers: self.peers.duplicate(),
            data_dir: self.data_dir.duplicate(),
        }
    }

    /// Where the metrics are served, nowhere if that was disabled.
    pub fn metrics_endpoint(&self) -> (endpoint: Option<&str>)
        ensures
            match endpoint {
                Some(addr) => addr@ == self.metrics_addr@ && addr@ != "disabled"@,
                None => self.metrics_addr@ == "disabled"@,
            },
    {
        if str_equal(self.metrics_addr.as_str(), "disabled") {
            None
        } else {
            Some(self.metrics_addr.as_str())
        }
    }
}

impl Config {
    pub fn heartbeat_interval_ms() -> (ms: u64)
        ensures
            ms == HEARTBEAT_INTERVAL_MS,
    {
        HEARTBEAT_INTERVAL_MS
    }

    pub fn min_election_timeout_ms() -> (ms: u64)
        ensures
            ms == MIN_ELECTION_TIMEOUT_MS,
    {
        MIN_ELECTION_TIMEOUT_MS
    }

    pub fn max_election_timeout_ms() -> (ms: u64)
        ensures
            ms == MAX_ELECTION_TIMEOUT_MS,
    {
        MAX_ELECTION_TIMEOUT_MS
    }

    pub fn snapshot_threshold_bytes() -> (bytes: u64)
        ensures
            bytes == SNAPSHOT_THRESHOLD_BYTES,
    {
        SNAPSHOT_THRESHOLD_BYTES
    }

    pub fn tx_timeout_ms() -> (ms: u64)
        ensures
            ms == TX_TIMEOUT_MS,
    {
        TX_TIMEOUT_MS
    }
}

/// A single lost heartbeat does not let an election timeout run out: the
/// shortest one spans at least ten heartbeats.
pub proof fn heartbeats_fit_the_election_timeout()
    ensures
        MIN_ELECTION_TIMEOUT_MS >= 10 * HEARTBEAT_INTERVAL_MS,
        MIN_ELECTION_TIMEOUT_MS < MAX_ELECTION_TIMEOUT_MS,
{
}

} // verus!
