//! Verified core of the CSQTT tunnel client and server.
pub mod addr;
pub mod client;
pub mod doubles;
pub mod frame;
pub mod octets;
pub mod packet;
pub mod server;
pub mod shard_map;
pub mod text;
pub mod text_map;
