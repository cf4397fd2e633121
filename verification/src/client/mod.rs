//! The client: worker channels, local proxy and the configuration protocol.
pub mod dispatcher;
pub mod packet_queue;
pub mod protocol;
pub mod settings;
pub mod stream_proxy;
pub mod tun_io;
pub mod udp_io;
pub mod workers;
