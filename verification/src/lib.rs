//! A UDP BitTorrent tracker core: binary packet codec, connection-token
//! handshake, swarm membership store with idle expiry, and the announce
//! state machine that ties them together.
pub mod codec;
pub mod auth;
pub mod engine;
pub mod store;
