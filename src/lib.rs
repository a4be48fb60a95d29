//! Session layer of a hub-and-peers messaging system over message-framed
//! sockets: the wire envelope, the hub's registry of live peers, the hub's
//! per-connection handshake and routing, the peer's heartbeat, and the
//! lookup of a peer's identity in its settings.
pub mod envelope;
pub mod hub;
pub mod peer;
pub mod registry;
pub mod settings;
