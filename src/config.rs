//! Server settings.

use vstd::prelude::*;

verus! {

/// Settings of the whole server.
#[derive(Clone, Debug, PartialEq)]
pub struct Config {
    pub port: u16,
    pub host: String,
    pub cors_origins: Vec<String>,
    pub room: RoomConfig,
    pub turn: TurnConfig,
    pub log_level: String,
}

/// Room limits.
#[derive(Clone, Debug, PartialEq)]
pub struct RoomConfig {
    /// Largest number of members a room admits.
    pub max_size: usize,
    /// Age in milliseconds past which the reaper evicts a room.
    pub timeout_ms: u64,
}

/// Relay (TURN) server settings.
#[derive(Clone, Debug, PartialEq)]
pub struct TurnConfig {
    pub url: String,
    pub secret: String,
    pub realm: String,
    pub enable_tls: bool,
    pub enable_udp: bool,
    pub enable_tcp: bool,
    pub ports: TurnPorts,
    /// Lifetime of an issued credential, in seconds.
    pub credential_ttl: u64,
    pub fallback_servers: Vec<String>,
}

/// Relay server ports per transport.
#[derive(Clone, Debug, PartialEq)]
pub struct TurnPorts {
    pub udp: u16,
    pub tcp: u16,
    pub tls: u16,
}

} // verus!
