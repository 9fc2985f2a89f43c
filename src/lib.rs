//! Room and peer registry, message relay and time-limited relay credentials
//! for a signaling server.

pub mod config;
pub mod connection;
pub mod dispatch;
pub mod protocol;
pub mod room;
pub mod signaling;
pub mod state;
pub mod text;
pub mod turn;
