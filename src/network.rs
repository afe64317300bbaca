//! Settings of the peer-to-peer transport.
use vstd::prelude::*;

verus! {

/// The topic that carries all sync traffic.
pub const SYNC_TOPIC: &'static str = "nexus-sync";

/// The default largest publication, in bytes.
pub const DEFAULT_MAX_MESSAGE_SIZE: usize = 65536;

/// The default pub/sub heartbeat, in seconds.
pub const DEFAULT_HEARTBEAT_SECS: u64 = 10;

/// How the transport is set up.
pub struct P2PConfig {
    pub enable_mdns: bool,
    pub enable_relay: bool,
    pub bootstrap_nodes: Vec<String>,
    pub relay_servers: Vec<String>,
    pub heartbeat_interval_secs: u64,
    pub max_message_size: usize,
}

impl Default for P2PConfig {
    /// Local discovery and relaying on, no configured nodes, a ten-second
    /// heartbeat and 64 KiB publications.
    fn default() -> (r: P2PConfig)
        ensures
            r.enable_mdns,
            r.enable_relay,
            r.bootstrap_nodes@.len() == 0,
            r.relay_servers@.len() == 0,
            r.heartbeat_interval_secs == DEFAULT_HEARTBEAT_SECS,
            r.max_message_size == DEFAULT_MAX_MESSAGE_SIZE,
    {
        P2PConfig {
            enable_mdns: true,
            enable_relay: true,
            bootstrap_nodes: Vec::new(),
            relay_servers: Vec::new(),
            heartbeat_interval_secs: DEFAULT_HEARTBEAT_SECS,
            max_message_size: DEFAULT_MAX_MESSAGE_SIZE,
        }
    }
}

} // verus!
