use csqtt::addr::Ipv4;
use csqtt::packet::PacketClass;
use csqtt::server::model::{get_next_ip, Database};
use csqtt::server::net_setup::{initialize, network, tun_subnet, NetworkError, TunnelNetwork};
use csqtt::server::tun_device::{
    parse_ipv4, LocalStripedScheduler, RouteTable, BULK_STRIPE_PACKET_CHUNK,
};

fn ip(last: u8) -> [u8; 4] {
    [10, 66, 67, last]
}

#[test]
fn route_table_supports_all_stream_scales() {
    for count in [9, 18, 27, 36, 45, 54, 63, 72, 81, 90, 99, 108, 117, 126] {
        let mut table = RouteTable::new();
        for id in 1..=count as u64 {
            assert!(table.register(ip(2), id, id, id as u16, id as usize));
        }
        assert_eq!(table.stream_count(ip(2)), count);
        for _ in 0..100_000 {
            let selected = table.select(ip(2), PacketClass::Bulk).unwrap();
            assert!((1..=count as u64).contains(&selected.session_id));
        }
    }
}

#[test]
fn unregister_is_registration_exact() {
    let mut table = RouteTable::new();
    assert!(table.register(ip(7), 100, 10, 1, 1));
    assert!(table.register(ip(7), 200, 20, 2, 2));
    assert!(table.unregister(ip(7), 10));
    assert_eq!(table.stream_count(ip(7)), 1);
    assert_eq!(
        table.select(ip(7), PacketClass::Bulk).unwrap().session_id,
        200
    );
}

#[test]
fn compacted_session_slot_is_updated() {
    let mut table = RouteTable::new();
    assert!(table.register(ip(7), 100, 10, 1, 3));
    table.update_slot(ip(7), 100, 10, 9);
    assert_eq!(table.select(ip(7), PacketClass::Bulk).unwrap().slot, 9);
}

#[test]
fn foreign_subnet_is_rejected() {
    let mut table = RouteTable::new();
    assert!(!table.register([10, 66, 68, 2], 1, 1, 1, 1));
    assert!(table.select([10, 66, 68, 2], PacketClass::Bulk).is_none());
}

#[test]
fn replacement_transport_atomically_keeps_one_logical_worker() {
    let mut table = RouteTable::new();
    assert!(table.register(ip(7), 100, 10, 4, 1));
    assert!(table.register(ip(7), 200, 20, 4, 2));

    assert_eq!(table.stream_count(ip(7)), 1);
    assert_eq!(
        table.select(ip(7), PacketClass::Bulk).unwrap().session_id,
        200
    );
    assert!(!table.unregister(ip(7), 10));
    assert_eq!(
        table.select(ip(7), PacketClass::Bulk).unwrap().session_id,
        200
    );
}

#[test]
fn bulk_selection_respects_scheduler_chunks() {
    let mut table = RouteTable::new();
    for id in 1..=2 {
        assert!(table.register(ip(2), id, id, id as u16, id as usize));
    }

    for _ in 0..BULK_STRIPE_PACKET_CHUNK {
        assert_eq!(table.select(ip(2), PacketClass::Bulk).unwrap().worker_id, 1);
    }
    assert_eq!(table.select(ip(2), PacketClass::Bulk).unwrap().worker_id, 2);
}

#[test]
fn local_scheduler_restarts_safely_after_path_count_shrinks() {
    let mut scheduler = LocalStripedScheduler::new();
    assert_eq!(scheduler.select(3, PacketClass::Bulk), Some(0));
    assert_eq!(scheduler.select(3, PacketClass::Bulk), Some(0));
    assert_eq!(scheduler.select(3, PacketClass::Bulk), Some(1));
    assert_eq!(scheduler.select(2, PacketClass::Bulk), Some(0));
    assert_eq!(scheduler.select(2, PacketClass::Bulk), Some(0));
    assert_eq!(scheduler.select(2, PacketClass::Bulk), Some(1));
}

#[test]
fn route_selection_exposes_all_candidates_from_start() {
    let mut table = RouteTable::new();
    for id in 1..=3 {
        assert!(table.register(ip(2), id, id, id as u16, id as usize));
    }
    let key = table.tunnel_key(ip(2)).unwrap();
    let selection = table.select_key_window(key, PacketClass::Bulk).unwrap();
    assert_eq!(selection.len(), 3);
    assert_eq!(table.endpoint_at(key, selection, 0).unwrap().worker_id, 1);
    assert_eq!(table.endpoint_at(key, selection, 1).unwrap().worker_id, 2);
    assert_eq!(table.endpoint_at(key, selection, 2).unwrap().worker_id, 3);
    assert!(table.endpoint_at(key, selection, 3).is_none());
}

#[test]
fn latency_packets_round_robin_independently_from_bulk() {
    let mut table = RouteTable::new();
    assert!(table.register(ip(2), 1, 1, 1, 1));
    assert!(table.register(ip(2), 2, 2, 2, 2));

    for _ in 0..8 {
        assert!(table.select(ip(2), PacketClass::Bulk).is_some());
    }

    assert_eq!(
        table.select(ip(2), PacketClass::Latency).unwrap().worker_id,
        1
    );
    assert_eq!(
        table.select(ip(2), PacketClass::Latency).unwrap().worker_id,
        2
    );
}

#[test]
fn configured_network_reaches_allocator_and_routes() {
    let network = initialize(Some("172.23.45.0/24")).unwrap();
    assert_eq!(tun_subnet(&network), "172.23.45.0/24");
    assert_eq!(
        get_next_ip(&Database::new(), &network).as_deref(),
        Some("172.23.45.2")
    );
    let mut routes = RouteTable::for_network(&network);
    routes.register([172, 23, 45, 2], 1, 1, 1, 0);
    assert_eq!(routes.stream_count([172, 23, 45, 2]), 1);
    assert_eq!(routes.stream_count([10, 66, 67, 2]), 0);
}

#[test]
fn custom_network_addresses_and_validation() {
    let network = TunnelNetwork::parse("172.23.45.0/24").unwrap();
    assert_eq!(network.gateway, "172.23.45.1");
    assert_eq!(network.client_ip(250), "172.23.45.250");
    for invalid in [
        "0.0.0.0/24",
        "8.8.8.0/24",
        "10.1.2.1/24",
        "10.1.0.0/16",
        "10.1.2.0/24\n",
        "::/24",
    ] {
        assert!(TunnelNetwork::parse(invalid).is_err(), "{invalid}");
    }
}

#[test]
fn the_default_network() {
    assert_eq!(tun_subnet(&network()), "10.66.67.0/24");
    assert_eq!(tun_subnet(&initialize(None).unwrap()), "10.66.67.0/24");
    assert!(matches!(
        TunnelNetwork::parse("10.1.2.0/16"),
        Err(NetworkError::NotSlash24)
    ));
    assert!(matches!(
        TunnelNetwork::parse("10.1.2/24"),
        Err(NetworkError::InvalidAddress)
    ));
    assert!(matches!(
        TunnelNetwork::parse("8.8.8.0/24"),
        Err(NetworkError::NotPrivateNetwork)
    ));
}

#[test]
fn packets_are_routed_by_destination() {
    let mut packet = vec![0u8; 20];
    packet[0] = 0x45;
    packet[16..20].copy_from_slice(&ip(9));
    let mut table = RouteTable::default();
    assert_eq!(table.packet_key(&packet), Some(9));
    assert_eq!(table.active_path_count(9), 0);
    assert!(table.register(ip(9), 1, 1, 1, 0));
    assert_eq!(table.active_path_count(9), 1);
    packet[16] = 11;
    assert_eq!(table.packet_key(&packet), None);
    assert_eq!(table.packet_key(&[0x45]), None);
}

#[test]
fn striping_rotates_through_all_paths() {
    let mut scheduler = LocalStripedScheduler::new();
    for path in [0, 0, 1, 1, 2, 2, 0, 0] {
        assert_eq!(scheduler.select(3, PacketClass::Bulk), Some(path));
    }
    assert_eq!(scheduler.select(0, PacketClass::Bulk), None);
}

#[test]
fn addresses_have_one_text() {
    assert_eq!(parse_ipv4("10.66.67.2"), Some([10, 66, 67, 2]));
    assert_eq!(parse_ipv4("010.66.67.2"), None);
    assert_eq!(parse_ipv4("10.66.67"), None);
    assert_eq!(parse_ipv4("10.66.67.256"), None);
    let text: String = Ipv4::new([1, 20, 255, 0]).text().into_iter().collect();
    assert_eq!(text, "1.20.255.0");
    assert!(Ipv4::new([172, 31, 0, 1]).is_private());
    assert!(!Ipv4::new([172, 32, 0, 1]).is_private());
    assert_eq!(Ipv4::new([1, 2, 3, 4]).number(), 0x0102_0304);
}

#[test]
fn packets_take_turns_in_any_window() {
    let mut table = RouteTable::new();
    for id in 1..=3 {
        assert!(table.register(ip(2), id, id, id as u16, id as usize));
        assert!(table.register(ip(3), id + 10, id + 10, id as u16, id as usize));
    }
    let key = table.tunnel_key(ip(2)).unwrap();
    let other = table.tunnel_key(ip(3)).unwrap();
    for skipped in 0..7 {
        for _ in 0..skipped {
            table.select_key_window(key, PacketClass::Bulk).unwrap();
        }
        let mut taken = [0; 3];
        for step in 0..3 * BULK_STRIPE_PACKET_CHUNK {
            if step % 2 == 0 {
                table.select_key_window(other, PacketClass::Bulk).unwrap();
                table.select_key_window(key, PacketClass::Latency).unwrap();
            }
            let selection = table.select_key_window(key, PacketClass::Bulk).unwrap();
            let first = table.endpoint_at(key, selection, 0).unwrap();
            taken[first.worker_id as usize - 1] += 1;
        }
        assert_eq!(taken, [BULK_STRIPE_PACKET_CHUNK; 3]);
    }
    assert!(table.select_key_window(256, PacketClass::Bulk).is_none());
}
