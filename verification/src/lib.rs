//! Session store for agent conversations: sessions, their executions and
//! stdout-ownership leases, durable events and messages, and the warm
//! sandbox pool; with the start-up checks of the server that hosts it and
//! the verdicts of its API integration check.
pub mod types;
pub mod order;
pub mod decimal;
pub mod error;
pub mod json;
pub mod ids;
pub mod lease;
pub mod records;
pub mod store;
pub mod idle;
pub mod notification;
pub mod laws;
pub mod config;
pub mod checks;
pub mod report;
