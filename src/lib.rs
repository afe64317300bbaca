//! Offline-first peer-to-peer synchronisation core: a hybrid logical clock,
//! an operation log merged under last-writer-wins, the sync orchestrator's
//! decisions and the device pairing rules.

pub mod text;
pub mod hlc;
pub mod oplog;
pub mod crdt;
pub mod orchestrator;
pub mod pairing;
pub mod config;
pub mod cli;
pub mod network;
pub mod account;
pub mod qr;

pub use crate::cli::{detect_device_type, format_uptime, should_show_line};
pub use crate::config::{CliError, Config};
pub use crate::crdt::{build_oplog_entry, Replica};
pub use crate::hlc::{HlcTimestamp, HybridLogicalClock};
pub use crate::network::P2PConfig;
pub use crate::oplog::{OpType, OplogEntry};
pub use crate::orchestrator::{update_peer_info, Peer, SyncAction, SyncEvent, SyncManager, SyncMessage};
pub use crate::pairing::{AuthResponse, AuthResult, DeviceAuthManager, PairingSession};
pub use crate::qr::{scan_qr_code, AuthChallenge, ScanError};
