//! The per-connection logic of a multiplexed remote-session server: the
//! authentication gate, the channel registry and each channel's lifecycle,
//! the plans for the processes that channels start, the reverse
//! port-forward registry, the byte relay between a channel and a socket,
//! and the credential rules.
pub mod auth;
pub mod channel;
pub mod config;
pub mod connection;
pub mod error;
pub mod relay;
pub mod text;
