//! The server: tunnel routes, stored state, proxied streams and transparent proxying.
pub mod cpu;
pub mod dataplane;
pub mod diagnostics;
pub mod keys;
pub mod legacy;
pub mod live_report;
pub mod log_record;
pub mod metrics;
pub mod model;
pub mod net_setup;
pub mod perf_report;
pub mod persistence;
pub mod proxy_monitor;
pub mod proxy_policy;
pub mod report;
pub mod socks;
pub mod startup;
pub mod store;
pub mod stream_proxy;
pub mod tproxy;
pub mod tproxy_buffers;
pub mod tproxy_quota;
pub mod tproxy_udp;
pub mod tun_device;
