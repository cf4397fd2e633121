use csqtt::addr::Ipv4;
use csqtt::server::net_setup::network;
use csqtt::server::tproxy::{
    allowed_client, build_reply_header, calc_checksum, memory_budget, parse_orig_dst,
    reply_error_reported, session_expired, tproxy_port, TproxyStats, UDP_FLOW_IDLE_SECS,
};
use csqtt::server::tproxy_buffers::{
    BufferClassPool, OpeningBufferPool, ProxyBufferPool, PROXY_OPENING_BUFFER_LIMIT,
    PROXY_TCP_RETAINED_LIMIT,
};
use csqtt::server::tproxy_quota::{
    adaptive_device_limit, AdmissionError, DeviceQuotaRegistry, ProxyCapacity, TcpAcquire,
    DEVICE_NORMAL_BUFFER_LIMIT, DEVICE_TCP_SESSION_LIMIT, GLOBAL_TCP_SESSION_LIMIT,
    GLOBAL_UDP_FLOW_LIMIT,
};
use csqtt::server::tproxy_udp::{
    acquire_udp_quota, needs_jumbo_buffer, refill_delay, ClientAddr, DatagramStep, OpeningQueue, UdpEngine,
    UdpFlow, ASSOCIATION_BACKOFF_MS, ASSOCIATION_POOL_TARGET, MAX_CONCURRENT_OPENINGS, OPENING_PENDING_LIMIT,
};

#[test]
fn default_proxy_limits_keep_relay_memory_bounded() {
    assert_eq!(GLOBAL_TCP_SESSION_LIMIT, 384);
    assert_eq!(GLOBAL_UDP_FLOW_LIMIT, 784);
    assert_eq!(UDP_FLOW_IDLE_SECS, 60);
}

#[test]
fn adaptive_device_limit_keeps_burst_and_fair_share() {
    assert_eq!(adaptive_device_limit(384, 160, 20, 1), 160);
    assert_eq!(adaptive_device_limit(384, 160, 20, 2), 160);
    assert_eq!(adaptive_device_limit(384, 160, 20, 6), 64);
    assert_eq!(adaptive_device_limit(384, 160, 20, 20), 20);
    assert_eq!(adaptive_device_limit(784, 320, 40, 1), 320);
    assert_eq!(adaptive_device_limit(784, 320, 40, 2), 320);
    assert_eq!(adaptive_device_limit(784, 320, 40, 6), 130);
    assert_eq!(adaptive_device_limit(784, 320, 40, 20), 40);
}

#[test]
fn proxy_capacity_expands_only_at_pressure_boundaries() {
    assert_eq!(
        ProxyCapacity::next_limits((384, 784), None),
        (1_512, 2_048)
    );
    assert_eq!(
        ProxyCapacity::next_limits((1_512, 2_048), None),
        (1_512, 2_048)
    );
    assert_eq!(
        ProxyCapacity::next_limits((1_512, 2_048), Some(512 * 1024 * 1024)),
        (1_784, 2_384)
    );
    assert_eq!(
        ProxyCapacity::next_limits((1_512, 2_048), Some(1_200 * 1024 * 1024)),
        (2_384, 4_096)
    );
}

#[test]
fn ports_are_unique_per_runtime_and_in_range() {
    let first = tproxy_port(1);
    let second = tproxy_port(2);
    assert_ne!(first, second);
    assert!(first >= 10666);
    assert_eq!(tproxy_port(1), first);
}

#[test]
fn runtime_stats_track_active_peak_and_total() {
    let mut stats = TproxyStats::default();
    stats.tcp_started();
    stats.tcp_started();
    stats.tcp_finished();
    stats.udp_started();
    stats.udp_finished();
    let snapshot = stats.snapshot(None, None);
    assert_eq!(snapshot.tcp_active, 1);
    assert_eq!(snapshot.tcp_peak, 2);
    assert_eq!(snapshot.tcp_total, 2);
    assert_eq!(snapshot.udp_active, 0);
    assert_eq!(snapshot.udp_peak, 1);
    assert_eq!(snapshot.udp_total, 1);
}

#[test]
fn proxy_buffers_are_released_when_unused() {
    let mut registry = DeviceQuotaRegistry::new();
    let mut pool = ProxyBufferPool::new();
    let mut tcp = Vec::new();
    for _ in 0..=PROXY_TCP_RETAINED_LIMIT {
        tcp.push(pool.acquire_tcp().expect("TCP pool has capacity"));
    }
    assert_eq!(pool.tcp.snapshot(), (1, 0));
    for lease in tcp {
        pool.release(&mut registry, lease);
    }
    assert_eq!(pool.tcp.snapshot(), (0, 0));
}

#[test]
fn opening_packets_have_a_fixed_global_ceiling() {
    let mut pool = OpeningBufferPool::new();
    let opening = pool
        .acquire(PROXY_OPENING_BUFFER_LIMIT)
        .expect("opening pool has capacity");
    assert!(pool.acquire(1).is_none());
    pool.release(opening);
    assert_eq!(pool.allocated_bytes(), 0);
    assert!(pool.acquire(PROXY_OPENING_BUFFER_LIMIT).is_some());
}

#[test]
fn storage_is_lent_up_to_the_ceiling() {
    let mut pool = OpeningBufferPool::new();
    let storage = || bytes::BytesMut::from(&b"four"[..]);
    let lease = pool.lend(storage(), PROXY_OPENING_BUFFER_LIMIT - 4).unwrap();
    assert_eq!(lease.as_slice(), b"four");
    assert_eq!(lease.charged, PROXY_OPENING_BUFFER_LIMIT - 4);
    assert!(pool.lend(storage(), 5).is_none());
    assert_eq!(pool.allocated_bytes(), PROXY_OPENING_BUFFER_LIMIT - 4);
    assert!(pool.lend(storage(), 4).is_some());
    assert!(pool.lend(storage(), 1).is_none());
    pool.release(lease);
    assert_eq!(pool.allocated_bytes(), 4);
}

#[test]
fn tunnel_ip_quota_is_available_after_activation() {
    let mut registry = DeviceQuotaRegistry::new();
    let ip = Ipv4::new([10, 66, 67, 2]);
    registry.activate_tunnel_ip(ip);
    let lease = registry
        .try_acquire_tcp(ip)
        .expect("tunnel client gets a TCP quota");
    registry.release_tcp(lease);
    assert!(registry.quota_for_ip(ip).is_some());
}

fn client(last: u8, port: u16) -> ClientAddr {
    ClientAddr {
        ip: Ipv4::new([10, 66, 67, last]),
        port,
    }
}

fn engine_with(registry: &mut DeviceQuotaRegistry, ready: usize) -> UdpEngine {
    let mut engine = UdpEngine::new();
    for last in 1..=9 {
        registry.activate_tunnel_ip(Ipv4::new([10, 66, 67, last]));
    }
    for _ in 0..ready {
        assert!(engine.on_pool_result(true).0);
    }
    engine
}

#[test]
fn udp_flow_keys_do_not_collide_between_clients() {
    let mut registry = DeviceQuotaRegistry::new();
    let mut engine = engine_with(&mut registry, 2);
    let client_a = client(1, 5353);
    let client_b = client(2, 5353);
    for addr in [client_a, client_b] {
        let outcome = engine.on_datagram(&mut registry, addr, 0, None);
        assert_eq!(outcome.step, DatagramStep::Open);
    }
    assert_eq!(engine.flows.len(), 2);
    assert_eq!(engine.flows[0].client, client_a);
    assert_eq!(engine.flows[1].client, client_b);
}

#[test]
fn session_expiry_respects_idle_and_hard_limits() {
    let start = 1_000_000i64;
    assert!(!session_expired(start + 1, start, start + 600_001));
    assert!(session_expired(start + 1, start, start + 600_002));
    assert!(session_expired(start + 7_200_001, start, start + 7_200_001));
    assert!(!session_expired(start, start, start));
}

#[test]
fn parses_original_destination_from_control_message() {
    let mut control = vec![0u8; 64];
    control[0..8].copy_from_slice(&32u64.to_ne_bytes());
    control[8..12].copy_from_slice(&libc::IPPROTO_IP.to_ne_bytes());
    control[12..16].copy_from_slice(&libc::IP_RECVORIGDSTADDR.to_ne_bytes());
    control[16..18].copy_from_slice(&(libc::AF_INET as u16).to_ne_bytes());
    control[18..20].copy_from_slice(&443u16.to_be_bytes());
    control[20..24].copy_from_slice(&[93, 184, 216, 34]);
    let parsed = match parse_orig_dst(&control) {
        Some(parsed) => parsed,
        None => panic!("control message should contain the original destination"),
    };
    assert_eq!(parsed.0, Ipv4::new([93, 184, 216, 34]));
    assert_eq!(parsed.1, 443);
    control[12] = 0;
    assert!(parse_orig_dst(&control).is_none());
    assert!(parse_orig_dst(&control[..8]).is_none());
}

#[test]
fn a_released_session_leaves_the_registry_as_it_was() {
    let mut registry = DeviceQuotaRegistry::new();
    let ip = Ipv4::new([10, 66, 67, 3]);
    registry.activate_tunnel_ip(ip);
    let before = registry.quotas[0];
    let tcp = registry.try_acquire_tcp(ip).unwrap();
    let udp = registry.try_acquire_udp(ip).unwrap();
    assert_eq!(registry.admission.tcp_active, 1);
    registry.release_udp(udp);
    registry.release_tcp(tcp);
    assert_eq!(registry.quotas[0], before);
    assert_eq!(registry.admission.tcp_active, 0);
}

#[test]
fn an_unknown_device_is_not_admitted() {
    let mut registry = DeviceQuotaRegistry::new();
    let ip = Ipv4::new([10, 66, 67, 200]);
    assert_eq!(
        registry.try_acquire_tcp(ip),
        Err(AdmissionError::Inactive)
    );
    assert_eq!(
        registry.acquire_tcp_quota(ip, None),
        TcpAcquire::Refused
    );
}

#[test]
fn a_device_gets_no_more_than_its_share() {
    let mut registry = DeviceQuotaRegistry::new();
    let ip = Ipv4::new([10, 66, 67, 4]);
    registry.activate_tunnel_ip(ip);
    for _ in 0..DEVICE_TCP_SESSION_LIMIT {
        assert!(registry.try_acquire_tcp(ip).is_ok());
    }
    assert_eq!(
        registry.try_acquire_tcp(ip),
        Err(AdmissionError::DeviceLimit)
    );
    registry.release_runtime_state();
    assert_eq!(registry.admission.tcp_active, 0);
    assert_eq!(registry.limits(), (384, 784));
    assert_eq!(registry.quota_for_ip(ip), Some(0));
}

#[test]
fn pressure_raises_limits_and_then_evicts() {
    let mut registry = DeviceQuotaRegistry::new();
    let mut leases = Vec::new();
    for device in 1..=3u8 {
        let ip = Ipv4::new([10, 66, 67, device]);
        registry.activate_tunnel_ip(ip);
        for _ in 0..128 {
            leases.push(registry.try_acquire_tcp(ip).unwrap());
        }
    }
    assert_eq!(leases.len(), GLOBAL_TCP_SESSION_LIMIT);
    let late = Ipv4::new([10, 66, 67, 9]);
    registry.activate_tunnel_ip(late);
    assert_eq!(
        registry.try_acquire_tcp(late),
        Err(AdmissionError::GlobalLimit)
    );
    assert!(matches!(
        registry.acquire_tcp_quota(late, None),
        TcpAcquire::Leased(_)
    ));
    assert_eq!(registry.limits(), (1_512, 2_048));
    assert_eq!(registry.cancel_oldest_tcp(), Some(leases[0].session_id));
    assert_eq!(registry.cancel_oldest_tcp(), Some(leases[1].session_id));
}

#[test]
fn an_evicted_session_makes_room_for_one_more() {
    let mut registry = DeviceQuotaRegistry::new();
    let mut first = None;
    for device in 1..=3u8 {
        let ip = Ipv4::new([10, 66, 67, device]);
        registry.activate_tunnel_ip(ip);
        for _ in 0..128 {
            let lease = registry.try_acquire_tcp(ip).unwrap();
            first.get_or_insert(lease);
        }
    }
    let late = Ipv4::new([10, 66, 67, 9]);
    assert!(registry.acquire_after_eviction(late).is_none());
    registry.activate_tunnel_ip(late);
    assert!(registry.acquire_after_eviction(late).is_none());
    assert_eq!(registry.limits(), (384, 784));
    assert_eq!(registry.admission.tcp_active, 384);
    registry.release_tcp(first.unwrap());
    let lease = registry.acquire_after_eviction(late).unwrap();
    assert_eq!(lease.device, 3);
    assert_eq!(registry.admission.tcp_active, 384);
}

#[test]
fn a_failed_relay_pauses_the_set_up_of_others() {
    assert_eq!(ASSOCIATION_BACKOFF_MS, 2_000);
    assert_eq!(refill_delay(false), Some(2_000));
    assert_eq!(refill_delay(true), None);
}

#[test]
fn response_buffers_are_shared_out() {
    let mut registry = DeviceQuotaRegistry::new();
    let mut pool = ProxyBufferPool::new();
    registry.activate_tunnel_ip(Ipv4::new([10, 66, 67, 2]));
    let mut leases = Vec::new();
    for _ in 0..DEVICE_NORMAL_BUFFER_LIMIT {
        leases.push(pool.acquire_udp(&mut registry, 0, false).unwrap());
    }
    assert!(pool.acquire_udp(&mut registry, 0, false).is_none());
    let jumbo = pool.acquire_udp(&mut registry, 0, true).unwrap();
    assert_eq!(jumbo.buffer.len(), 65_535);
    assert!(pool.acquire_udp(&mut registry, 0, true).is_none());
    assert_eq!(pool.snapshot().normal_allocated, DEVICE_NORMAL_BUFFER_LIMIT);
    pool.release(&mut registry, jumbo);
    pool.release(&mut registry, leases.pop().unwrap());
    assert!(pool.acquire_udp(&mut registry, 0, false).is_some());
    assert_eq!(pool.snapshot().jumbo_allocated, 0);
    pool.trim();
}

#[test]
fn a_pool_keeps_released_buffers_up_to_its_limit() {
    let mut pool = BufferClassPool::new(2, 1, 8);
    let first = pool.acquire().unwrap();
    let second = pool.acquire().unwrap();
    assert_eq!(first.as_ref(), [0u8; 8]);
    assert!(pool.acquire().is_none());
    pool.release(first);
    pool.release(second);
    assert_eq!(pool.snapshot(), (1, 1));
    assert!(pool.acquire().is_some());
    assert_eq!(pool.snapshot(), (1, 0));
    let third = pool.acquire().unwrap();
    pool.release(third);
    pool.trim();
    assert_eq!(pool.snapshot().1, 0);
}

#[test]
fn a_waiting_datagram_is_kept_as_it_came() {
    let mut buffers = OpeningBufferPool::new();
    let mut queue = OpeningQueue::new(client(1, 1));
    assert!(queue.push(client(8, 53), b"query", &mut buffers));
    assert!(queue.push(client(8, 54), b"", &mut buffers));
    assert!(buffers.allocated_bytes() >= 5);
    let pending = queue.take();
    assert_eq!(pending.len(), 2);
    assert_eq!(pending[0].destination, client(8, 53));
    assert_eq!(pending[0].buffer.as_slice(), b"query");
    assert_eq!(queue.bytes, 0);
    assert!(!queue.push(client(8, 53), &[0; 65_537], &mut buffers));
    for _ in 0..OPENING_PENDING_LIMIT {
        assert!(queue.push(client(8, 53), b"x", &mut buffers));
    }
    assert!(!queue.push(client(8, 53), b"x", &mut buffers));
    assert!(!queue.has_room(0));
}

#[test]
fn a_flow_is_used_refreshed_and_swept() {
    let mut registry = DeviceQuotaRegistry::new();
    let mut engine = engine_with(&mut registry, 1);
    let addr = client(1, 40_000);
    let outcome = engine.on_datagram(&mut registry, addr, 10, None);
    assert_eq!(outcome.step, DatagramStep::Open);
    assert_eq!(outcome.refills, 1);
    let outcome = engine.on_datagram(&mut registry, addr, 20, None);
    assert_eq!(outcome.step, DatagramStep::Forward);
    assert_eq!(engine.flows[0].last_seen, 20);
    assert!(engine.sweep(&mut registry, 60_020).is_empty());
    assert_eq!(engine.sweep(&mut registry, 60_021), [addr]);
    assert_eq!(registry.admission.udp_active, 0);
    assert_eq!(engine.served, 1);
    assert_eq!(engine.datagrams, 2);
}

#[test]
fn an_answer_keeps_a_flow_in_use() {
    let mut registry = DeviceQuotaRegistry::new();
    let mut engine = engine_with(&mut registry, 1);
    let addr = client(1, 40_000);
    engine.on_datagram(&mut registry, addr, 10, None);
    engine.touch(addr, 50_000);
    engine.touch(client(2, 1), 70_000);
    assert!(engine.sweep(&mut registry, 110_000).is_empty());
    assert_eq!(engine.sweep(&mut registry, 110_001), [addr]);
}

#[test]
fn a_client_waits_while_its_relay_is_set_up() {
    let mut registry = DeviceQuotaRegistry::new();
    let mut buffers = OpeningBufferPool::new();
    let mut engine = engine_with(&mut registry, 0);
    let addr = client(1, 40_000);
    let outcome = engine.on_datagram(&mut registry, addr, 0, None);
    assert_eq!(outcome.step, DatagramStep::StartOpening);
    assert_eq!(outcome.refills, 0);
    assert!(engine.enqueue(addr, client(8, 53), b"one", &mut buffers));
    let outcome = engine.on_datagram(&mut registry, addr, 1, None);
    assert_eq!(outcome.step, DatagramStep::Queue);
    assert!(engine.enqueue(addr, client(8, 53), b"two", &mut buffers));
    assert!(!engine.enqueue(client(2, 1), client(8, 53), b"no", &mut buffers));
    let (pending, ended, opened) = engine.on_opened(&mut registry, addr, 2, None);
    assert!(opened);
    assert!(ended.is_empty());
    assert_eq!(pending.len(), 2);
    assert_eq!(pending[1].buffer.as_slice(), b"two");
    assert_eq!(
        engine.on_datagram(&mut registry, addr, 3, None).step,
        DatagramStep::Forward
    );
    engine.mark_finished(addr);
    let outcome = engine.on_datagram(&mut registry, addr, 4, None);
    assert_eq!(outcome.step, DatagramStep::StartOpening);
    assert_eq!(outcome.ended, [addr]);
}

#[test]
fn a_failed_relay_pauses_new_ones() {
    let mut registry = DeviceQuotaRegistry::new();
    let mut engine = engine_with(&mut registry, 0);
    engine.on_datagram(&mut registry, client(1, 1), 0, None);
    let (pending, report) = engine.on_open_failed(client(1, 1), "refused".to_owned(), 100);
    assert!(pending.is_empty());
    assert!(report);
    assert_eq!(
        engine.on_datagram(&mut registry, client(1, 1), 2_099, None).step,
        DatagramStep::Drop
    );
    assert_eq!(
        engine.on_datagram(&mut registry, client(1, 1), 2_100, None).step,
        DatagramStep::StartOpening
    );
    engine.on_open_failed(client(1, 1), "refused".to_owned(), 3_000);
    let (_, again) = engine.on_open_failed(client(1, 1), "refused".to_owned(), 3_001);
    assert!(!again);
    let (_, other) = engine.on_open_failed(client(1, 1), "timeout".to_owned(), 3_002);
    assert!(other);
}

#[test]
fn openings_are_limited() {
    let mut registry = DeviceQuotaRegistry::new();
    let mut engine = engine_with(&mut registry, 0);
    for port in 0..MAX_CONCURRENT_OPENINGS as u16 {
        assert_eq!(
            engine.on_datagram(&mut registry, client(1, port), 0, None).step,
            DatagramStep::StartOpening
        );
    }
    assert_eq!(
        engine.on_datagram(&mut registry, client(1, 9_999), 0, None).step,
        DatagramStep::Drop
    );
}

#[test]
fn an_unknown_device_uses_up_a_ready_relay() {
    let mut registry = DeviceQuotaRegistry::new();
    let mut engine = engine_with(&mut registry, 1);
    let outcome = engine.on_datagram(&mut registry, client(200, 1), 0, None);
    assert_eq!(outcome.step, DatagramStep::Refuse);
    assert_eq!(engine.ready, 0);
    assert_eq!(outcome.refills, 0);
}

#[test]
fn ready_relays_stay_at_their_target() {
    let mut engine = UdpEngine::new();
    assert_eq!(engine.refills_in_flight, ASSOCIATION_POOL_TARGET);
    assert_eq!(engine.on_pool_result(true), (true, 0));
    assert_eq!(engine.on_pool_result(false), (false, 1));
    assert_eq!(
        engine.ready + engine.refills_in_flight,
        ASSOCIATION_POOL_TARGET
    );
}

#[test]
fn receive_errors_back_off() {
    let mut engine = UdpEngine::new();
    let waits: Vec<u64> = (0..7).map(|_| engine.on_recv_error()).collect();
    assert_eq!(waits, [2, 4, 8, 16, 32, 50, 50]);
}

#[test]
fn the_oldest_flow_makes_room() {
    let mut registry = DeviceQuotaRegistry::new();
    for device in 1..=5u8 {
        registry.activate_tunnel_ip(Ipv4::new([10, 66, 67, device]));
    }
    while registry.capacity.try_expand(Some(2 << 30)) {}
    let (_, limit) = registry.limits();
    assert_eq!(limit, 4_096);
    registry.admission.udp_active = limit - 2;
    let mut flows = Vec::new();
    let mut ended = Vec::new();
    for (device, last_seen) in [(1u8, 50i64), (2, 10)] {
        let lease = registry
            .try_acquire_udp(Ipv4::new([10, 66, 67, device]))
            .unwrap();
        flows.push(UdpFlow {
            client: client(device, 1),
            last_seen,
            finished: false,
            cancelled: false,
            lease,
        });
    }
    let ip = Ipv4::new([10, 66, 67, 3]);
    let lease = acquire_udp_quota(&mut registry, &mut flows, &mut ended, ip, Some(2 << 30));
    assert!(lease.is_some());
    assert_eq!(ended, [client(2, 1)]);
    assert_eq!(flows.len(), 1);
}

#[test]
fn responses_of_unknown_length_need_a_large_buffer() {
    assert!(needs_jumbo_buffer(None));
    assert!(needs_jumbo_buffer(Some(4_097)));
    assert!(!needs_jumbo_buffer(Some(4_096)));
}

#[test]
fn replies_carry_a_valid_header() {
    let header = build_reply_header(
        Ipv4::new([1, 1, 1, 1]),
        Ipv4::new([10, 66, 67, 2]),
        53,
        40_000,
        5,
    )
    .unwrap();
    assert_eq!(header.len(), 28);
    assert_eq!(header[0], 0x45);
    assert_eq!(&header[2..4], &33u16.to_be_bytes());
    assert_eq!(&header[12..16], &[1, 1, 1, 1]);
    assert_eq!(&header[20..22], &53u16.to_be_bytes());
    assert_eq!(&header[24..26], &13u16.to_be_bytes());
    assert_eq!(calc_checksum(&header[..20]), 0);
    let mut example = vec![
        0x45, 0x00, 0x00, 0x73, 0x00, 0x00, 0x40, 0x00, 0x40, 0x11, 0x00, 0x00, 0xc0, 0xa8, 0x00,
        0x01, 0xc0, 0xa8, 0x00, 0xc7,
    ];
    assert_eq!(calc_checksum(&example), 0xb861);
    example[10..12].copy_from_slice(&0xb861u16.to_be_bytes());
    assert_eq!(calc_checksum(&example), 0);
    assert!(build_reply_header(
        Ipv4::new([1, 1, 1, 1]),
        Ipv4::new([10, 66, 67, 2]),
        53,
        40_000,
        65_536
    )
    .is_none());
}

#[test]
fn only_tunnel_clients_are_proxied() {
    let network = network();
    assert!(allowed_client(Ipv4::new([10, 66, 67, 2]), &network));
    assert!(!allowed_client(Ipv4::new([10, 66, 68, 2]), &network));
}

#[test]
fn relay_memory_has_a_budget() {
    let budget = memory_budget();
    assert_eq!(budget.udp_normal_buffer_bytes, 4_096);
    assert_eq!(budget.udp_jumbo_buffer_bytes, 65_535);
    assert_eq!(budget.tcp_relay_bytes_per_session, 32_768);
}

#[test]
fn refused_sessions_are_counted() {
    let mut stats = TproxyStats::new();
    stats.tcp_budget_rejected();
    stats.udp_budget_rejected();
    stats.udp_budget_rejected();
    stats.set_limits((5, 6));
    let mut registry = DeviceQuotaRegistry::new();
    let mut pool = ProxyBufferPool::new();
    let lease = pool.acquire_tcp().unwrap();
    let snapshot = stats.snapshot(Some(pool.snapshot()), Some(77));
    assert_eq!(snapshot.tcp_budget_rejects, 1);
    assert_eq!(snapshot.udp_budget_rejects, 2);
    assert_eq!((snapshot.tcp_limit, snapshot.udp_limit), (5, 6));
    assert_eq!(snapshot.tcp_buffer_allocated, 1);
    assert_eq!(snapshot.opening_buffer_allocated_bytes, 77);
    pool.release(&mut registry, lease);
}

#[test]
fn unsent_replies_are_reported_now_and_then() {
    let reported: Vec<u64> = (1..=3_000)
        .filter(|errors| reply_error_reported(*errors))
        .collect();
    assert_eq!(reported, [1, 1_000, 2_000, 3_000]);
}
