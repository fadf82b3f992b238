//! Networking and world-sharding core of a multiplayer game server.
//!
//! The crate holds the packet codec, the connection registry that fans
//! packets out to subscribers, and the router that moves a player's packet
//! stream between map shards.

pub mod binary64;
pub mod block;
pub mod codec;
pub mod exact;
pub mod field;
pub mod ids;
pub mod keep_alive;
pub mod login;
pub mod messenger;
pub mod packet;
pub mod patchwork;
pub mod shard;
pub mod translation;
pub mod wire;
