use csqtt::addr::{Endpoint, IpAddress, Ipv4, Ipv6};
use csqtt::frame::{CLOSE, DATA, OPEN, OPEN_ERR, OPEN_OK};
use csqtt::server::model::{default_proxy_host, LocalProxyProfile};
use csqtt::server::proxy_monitor::{MonitorStep, ProxyMonitor, RouteState};
use csqtt::server::proxy_policy::{
    add_tproxy_rules, add_tproxy_shared_rules, child_wait, cleanup_legacy_rules,
    cleanup_nat_exemption, cleanup_shared_rules, deletion_commands, exempt_interfaces,
    flush_route_cache, interception_rule, loosen_path_filter, start_arguments,
    interception_rule_present, marked_rule_numbers, profile_matches, release_policy,
    stale_marker, stale_policy_rule, start_retry, tproxy_comment,
    tproxy_start_error_is_retryable, trim_tproxy_child_error, ChildWait, CommandMode,
    PolicyCommand, StartRetry,
};
use csqtt::server::socks::{
    append_socks_address, bound_endpoint, read_ipv4_endpoint, read_ipv6_endpoint, socks_command,
    socks_udp_response, udp_request_header, validate_config, ProfileError, SocksError, SocksState,
    UdpResponseError, CONNECT, UDP_ASSOCIATE,
};
use csqtt::server::stream_proxy::{
    allowed_destination, encode_frame, is_frame, parse_frame, parse_target, resolve_target,
    stream_step, FrameAction, FrameError, StreamEvent, StreamInput, StreamRegistry, StreamStep,
    Target, TargetError, MAX_SESSION_STREAMS,
};

fn config() -> LocalProxyProfile {
    LocalProxyProfile {
        host: default_proxy_host(),
        id: "test".to_owned(),
        name: "Test".to_owned(),
        port: 45000,
        username: String::new(),
        password: String::new(),
    }
}

fn v4(a: u8, b: u8, c: u8, d: u8) -> IpAddress {
    IpAddress::V4(Ipv4::new([a, b, c, d]))
}

#[test]
fn validates_proxy_credentials() {
    assert!(validate_config(&config()).is_ok());
    let mut value = config();
    value.password = "password".to_owned();
    assert!(validate_config(&value).is_err());
    value.username = "user\nname".to_owned();
    assert!(validate_config(&value).is_err());
}

#[test]
fn socks_command_connects_to_configured_host() {
    let mut profile = config();
    profile.host = "127.0.0.2".to_owned();
    let proxy = Ipv4::new([127, 0, 0, 2]);
    let any = Endpoint {
        ip: v4(0, 0, 0, 0),
        port: 0,
    };
    let step = socks_command(&profile, proxy, UDP_ASSOCIATE, any, &[]);
    assert_eq!(step.sent, [5, 1, 0]);
    let step = socks_command(&profile, proxy, UDP_ASSOCIATE, any, &[5, 0]);
    assert_eq!(&step.sent[3..7], &[5, 3, 0, 1]);
    assert_eq!(step.sent.len(), 13);
    let answer = [5, 0, 5, 0, 0, 1, 0, 0, 0, 0, 0x12, 0x34];
    let step = socks_command(&profile, proxy, UDP_ASSOCIATE, any, &answer);
    match step.state {
        SocksState::Bound(relay) => assert_eq!(
            bound_endpoint(relay, proxy),
            Endpoint {
                ip: v4(127, 0, 0, 2),
                port: 4660
            }
        ),
        _ => panic!("bound address expected"),
    }
    for host in [
        "0.0.0.0",
        "224.0.0.1",
        "255.255.255.255",
        "localhost",
        "127.0.0.1;id",
    ] {
        profile.host = host.to_owned();
        assert!(validate_config(&profile).is_err(), "{host}");
    }
}

#[test]
fn parses_socks5_udp_ipv4_response() {
    let mut packet = vec![0, 0, 0, 1, 1, 1, 1, 1, 0, 53];
    packet.extend_from_slice(b"dns");
    let (source, payload) = socks_udp_response(&packet).unwrap();
    assert_eq!(payload, b"dns");
    assert_eq!(
        source,
        Endpoint {
            ip: v4(1, 1, 1, 1),
            port: 53
        }
    );
}

#[test]
fn locates_quoted_tproxy_rules_by_chain_position() {
    let rules = "-P PREROUTING ACCEPT\n\
        -A PREROUTING -i csqtt1 -p udp -m comment --comment \"CSQTT_TPROXY:10669\" -j TPROXY\n\
        -A PREROUTING -p tcp -j ACCEPT\n\
        -A PREROUTING -i csqtt1 -p tcp -m comment --comment \"CSQTT_TPROXY:10669\" -j TPROXY\n";
    assert_eq!(
        marked_rule_numbers(rules, "PREROUTING", &["CSQTT_TPROXY"]),
        vec![1, 3]
    );
}

#[test]
fn ignores_other_chains_and_is_idempotent_after_cleanup() {
    let rules = "-A INPUT -m comment --comment \"CSQTT_TPROXY:10669\" -j ACCEPT\n\
        -A PREROUTING -p tcp -j ACCEPT\n";
    assert!(marked_rule_numbers(rules, "PREROUTING", &["CSQTT_TPROXY"]).is_empty());
    assert!(marked_rule_numbers("", "PREROUTING", &["CSQTT_TPROXY"]).is_empty());
}

#[test]
fn tproxy_child_startup_error_is_compact_and_cleaned_with_status() {
    let error = trim_tproxy_child_error(
        "bind TPROXY child 10667\n\nCaused by:\n    transparent UDP socket: Address already in use",
    );
    assert!(error.contains("bind TPROXY child 10667"));
    assert!(error.contains("transparent UDP socket: Address already in use"));
    assert!(!error.contains("\n"));
    let long = trim_tproxy_child_error(&"ж".repeat(4_000));
    assert!(long.ends_with("..."));
    assert!(long.len() <= 1_536 + 3);
}

#[test]
fn tproxy_start_retry_is_limited_to_busy_internal_ports() {
    assert!(tproxy_start_error_is_retryable(
        "bind TPROXY child 10667: Address already in use (os error 98)"
    ));
    assert!(!tproxy_start_error_is_retryable(
        "bind TPROXY child 10667: Operation not permitted (os error 1)"
    ));
}

#[test]
fn full_stream_queue_closes_without_delivering_a_suffix_after_a_gap() {
    let mut streams = StreamRegistry::new();
    let mut target = vec![1];
    target.extend_from_slice(&[93, 184, 216, 34, 0, 80]);
    streams
        .handle_frame(1, &encode_frame(OPEN, 2, &target), 7)
        .unwrap();
    assert!(streams.enqueue_data(1, 2, true).is_none());
    let close = streams.enqueue_data(1, 2, false).unwrap();
    assert_eq!(parse_frame(&close).unwrap().kind, CLOSE);
    assert!(streams.enqueue_data(1, 2, false).is_none());
    assert_eq!(streams.len(), 0);
}

#[test]
fn target_parser_accepts_domain_and_rejects_zero_port() {
    let mut payload = vec![3, 11];
    payload.extend_from_slice(b"example.com");
    payload.extend_from_slice(&443u16.to_be_bytes());
    match parse_target(&payload).unwrap() {
        Target::Domain(host, port) => {
            assert_eq!((host.as_str(), port), ("example.com", 443))
        }
        _ => panic!("domain expected"),
    }
    let length = payload.len();
    payload[length - 2..].copy_from_slice(&0u16.to_be_bytes());
    assert!(parse_target(&payload).is_err());
}

#[test]
fn private_and_metadata_destinations_are_blocked() {
    assert!(!allowed_destination(v4(127, 0, 0, 1)));
    assert!(!allowed_destination(v4(10, 0, 0, 1)));
    assert!(!allowed_destination(v4(169, 254, 169, 254)));
    assert!(!allowed_destination(IpAddress::V6(Ipv6 {
        hi: 0,
        lo: 0xffff_7f00_0001
    })));
    assert!(allowed_destination(v4(1, 1, 1, 1)));
}

#[test]
fn private_addresses_of_either_family_are_blocked() {
    let v6 = |hi: u64, lo: u64| IpAddress::V6(Ipv6 { hi, lo });
    for blocked in [
        v6(0, 0),
        v6(0, 1),
        v6(0xfe80_0000_0000_0000, 1),
        v6(0xfebf_0000_0000_0000, 1),
        v6(0xfc00_0000_0000_0000, 1),
        v6(0xfdff_0000_0000_0000, 1),
        v6(0xff02_0000_0000_0000, 1),
        v4(0, 0, 0, 0),
        v4(172, 31, 0, 1),
        v4(192, 168, 0, 1),
        v4(224, 0, 0, 1),
        v4(255, 255, 255, 255),
    ] {
        assert!(!allowed_destination(blocked), "{blocked:?}");
    }
    for allowed in [
        v6(0x2606_4700_4700_0000, 0x1111),
        v6(0xfec0_0000_0000_0000, 1),
        v6(0, 0xffff_0101_0101),
        v4(172, 32, 0, 1),
    ] {
        assert!(allowed_destination(allowed), "{allowed:?}");
    }
}

#[test]
fn bad_targets_have_a_reason() {
    assert!(matches!(parse_target(&[]), Err(TargetError::Missing)));
    assert!(matches!(
        parse_target(&[9, 1]),
        Err(TargetError::Unsupported)
    ));
    assert!(matches!(
        parse_target(&[1, 1, 1, 1, 1, 0, 0]),
        Err(TargetError::ZeroPort)
    ));
    assert!(matches!(
        parse_target(&[3, 0, 0, 80]),
        Err(TargetError::InvalidDomain)
    ));
    assert!(matches!(
        parse_target(&[3, 2, 0xff, 0xfe, 0, 80]),
        Err(TargetError::NotText)
    ));
    match parse_target(&[1, 9, 8, 7, 6, 1, 0]) {
        Ok(Target::Address(endpoint)) => {
            assert_eq!(endpoint.ip, v4(9, 8, 7, 6));
            assert_eq!(endpoint.port, 256);
        }
        _ => panic!("address expected"),
    }
}

#[test]
fn the_first_allowed_address_is_used() {
    let blocked = Endpoint {
        ip: v4(192, 168, 0, 1),
        port: 1,
    };
    let open = Endpoint {
        ip: v4(8, 8, 8, 8),
        port: 2,
    };
    assert_eq!(resolve_target(&vec![blocked, open]), Some(open));
    assert_eq!(resolve_target(&vec![blocked]), None);
}

#[test]
fn streams_are_opened_used_and_closed() {
    let mut streams = StreamRegistry::new();
    let target = [1u8, 93, 184, 216, 34, 0, 80];
    assert!(matches!(
        streams.handle_frame(1, b"junk", 0),
        Err(FrameError::Invalid)
    ));
    match streams.handle_frame(1, &encode_frame(OPEN, 2, &target), 41) {
        Ok(FrameAction::Open(Target::Address(endpoint))) => assert_eq!(endpoint.port, 80),
        _ => panic!("open expected"),
    }
    assert!(matches!(
        streams.handle_frame(1, &encode_frame(DATA, 2, b"abc"), 0),
        Ok(FrameAction::Deliver(41, data)) if data == b"abc"
    ));
    assert!(matches!(
        streams.handle_frame(2, &encode_frame(DATA, 2, b"abc"), 0),
        Ok(FrameAction::Ignore)
    ));
    assert!(matches!(
        streams.handle_frame(1, &encode_frame(OPEN_OK, 2, b""), 0),
        Err(FrameError::Unexpected)
    ));
    assert!(matches!(
        streams.handle_frame(1, &encode_frame(DATA, 2, &[0; 2_001]), 0),
        Err(FrameError::Invalid) | Err(FrameError::DataTooLarge)
    ));
    assert!(matches!(
        streams.handle_frame(1, &encode_frame(CLOSE, 2, b""), 0),
        Ok(FrameAction::Close(41))
    ));
    assert_eq!(streams.len(), 0);
    assert!(!is_frame(b"CSQPX2"));
}

#[test]
fn a_session_has_a_limit_of_streams() {
    let mut streams = StreamRegistry::new();
    let target = [1u8, 93, 184, 216, 34, 0, 80];
    for id in 1..=MAX_SESSION_STREAMS as u64 {
        assert!(matches!(
            streams.handle_frame(5, &encode_frame(OPEN, id, &target), id),
            Ok(FrameAction::Open(_))
        ));
    }
    match streams.handle_frame(5, &encode_frame(OPEN, 900, &target), 900) {
        Ok(FrameAction::Reply(frame)) => {
            assert_eq!(parse_frame(&frame).unwrap().kind, OPEN_ERR)
        }
        _ => panic!("refusal expected"),
    }
    assert!(matches!(
        streams.handle_frame(6, &encode_frame(OPEN, 1, &target), 901),
        Ok(FrameAction::Open(_))
    ));
    let mut closed = streams.close_session(5);
    closed.sort();
    assert_eq!(closed, (1..=32).collect::<Vec<u64>>());
    assert_eq!(streams.len(), 1);
    let frames = streams.finish_stream(6, 1, true);
    assert_eq!(frames.len(), 2);
    assert_eq!(parse_frame(&frames[0]).unwrap().payload, [5]);
    assert_eq!(streams.remove(6, 1), None);
}

#[test]
fn profiles_are_checked() {
    let mut value = config();
    value.host = "localhost".to_owned();
    assert_eq!(validate_config(&value), Err(ProfileError::HostNotIpv4));
    value.host = "224.0.0.1".to_owned();
    assert_eq!(validate_config(&value), Err(ProfileError::HostNotUnicast));
    value = config();
    value.port = 0;
    assert_eq!(validate_config(&value), Err(ProfileError::Port));
    value = config();
    value.username = "u".repeat(256);
    assert_eq!(
        validate_config(&value),
        Err(ProfileError::CredentialsTooLong)
    );
    value = config();
    value.password = "p".to_owned();
    assert_eq!(validate_config(&value), Err(ProfileError::UsernameMissing));
    value.username = "a\u{7}".to_owned();
    assert_eq!(
        validate_config(&value),
        Err(ProfileError::ControlCharacter)
    );
}

#[test]
fn a_dialogue_with_credentials() {
    let mut profile = config();
    profile.username = "me".to_owned();
    profile.password = "pw".to_owned();
    let proxy = Ipv4::new([127, 0, 0, 1]);
    let to = Endpoint {
        ip: v4(93, 184, 216, 34),
        port: 443,
    };
    let step = socks_command(&profile, proxy, CONNECT, to, &[5, 2]);
    assert!(step.sent.ends_with(&[1, 2, b'm', b'e', 2, b'p', b'w']));
    assert!(matches!(step.state, SocksState::Need(2)));
    let refused = socks_command(&profile, proxy, CONNECT, to, &[5, 2, 1, 1]);
    assert!(matches!(
        refused.state,
        SocksState::Failed(SocksError::BadCredentials)
    ));
    let step = socks_command(&profile, proxy, CONNECT, to, &[5, 2, 1, 0]);
    assert!(step
        .sent
        .ends_with(&[5, 1, 0, 1, 93, 184, 216, 34, 0x01, 0xbb]));
    let failed = socks_command(&profile, proxy, CONNECT, to, &[5, 2, 1, 0, 5, 4, 0, 1]);
    assert!(matches!(
        failed.state,
        SocksState::Failed(SocksError::Reply(4))
    ));
    let none = socks_command(&profile, proxy, CONNECT, to, &[5, 0xff]);
    assert!(matches!(
        none.state,
        SocksState::Failed(SocksError::MethodRejected)
    ));
}

#[test]
fn udp_datagrams_have_a_header() {
    let header = udp_request_header(Ipv4::new([8, 8, 4, 4]), 53);
    assert_eq!(header, [0, 0, 0, 1, 8, 8, 4, 4, 0, 53]);
    assert_eq!(socks_udp_response(&[0, 0]), Err(UdpResponseError::Header));
    assert_eq!(
        socks_udp_response(&[0, 0, 0, 3, 1, b'a', 0, 53, 0, 0]),
        Err(UdpResponseError::DomainAddress)
    );
    assert_eq!(
        socks_udp_response(&[0, 0, 0, 9, 1, 1, 1, 1, 0, 53]),
        Err(UdpResponseError::AddressType(9))
    );
    assert_eq!(
        socks_udp_response(&[0, 0, 0, 4, 1, 1, 1, 1, 0, 53]),
        Err(UdpResponseError::Short)
    );
}

#[test]
fn addresses_are_written_and_read_back() {
    let four = Endpoint {
        ip: v4(1, 2, 3, 4),
        port: 0x0506,
    };
    let six = Endpoint {
        ip: IpAddress::V6(Ipv6 { hi: 7, lo: 8 }),
        port: 9,
    };
    let mut bytes = Vec::new();
    append_socks_address(&mut bytes, four);
    append_socks_address(&mut bytes, six);
    assert_eq!(&bytes[..7], &[1, 1, 2, 3, 4, 5, 6]);
    assert_eq!(bytes[7], 4);
    assert_eq!(read_ipv4_endpoint(&bytes, 1), four);
    assert_eq!(read_ipv6_endpoint(&bytes, 8), six);
}

fn line(command: &PolicyCommand) -> String {
    let mut text = command.program.clone();
    for argument in &command.args {
        text.push(' ');
        text.push_str(argument);
    }
    text
}

#[test]
fn interception_commands() {
    assert_eq!(tproxy_comment(10_667), "CSQTT_TPROXY:10667");
    assert_eq!(
        line(&interception_rule(true, "udp", "csqtt1", "10.66.67.0/24", 10_667)),
        "iptables -t mangle -I PREROUTING 1 -i csqtt1 -s 10.66.67.0/24 -p udp -m comment \
         --comment CSQTT_TPROXY:10667 -j TPROXY --tproxy-mark 0x7531/0x7531 --on-port 10667"
    );
    let shared = add_tproxy_shared_rules();
    assert_eq!(shared[0].mode, CommandMode::UntilFailure);
    assert_eq!(
        line(&shared[2]),
        "ip route replace local 0.0.0.0/0 dev lo table 30001"
    );
    assert!(!add_tproxy_rules("csqtt1", "10.66.67.0/24", 10_667).is_empty());
    assert!(!cleanup_legacy_rules("10.66.67.0/24").is_empty());
    assert_eq!(cleanup_nat_exemption("10.66.67.0/24", "eth0").len(), 2);
}

#[test]
fn marked_rules_are_deleted_from_the_last_to_the_first() {
    let commands = deletion_commands("mangle", "PREROUTING", &vec![1, 3]);
    assert_eq!(line(&commands[0]), "iptables -t mangle -D PREROUTING 3");
    assert_eq!(line(&commands[1]), "iptables -t mangle -D PREROUTING 1");
    let mut chain = vec!["marked", "plain", "marked"];
    for number in [3, 1] {
        chain.remove(number - 1);
    }
    assert_eq!(chain, ["plain"]);
}

#[test]
fn stale_rules_are_found() {
    assert_eq!(
        stale_policy_rule("0: from all lookup local\n 30001: from all fwmark 0x7531 lookup 30001\n"),
        Some("30001: from all fwmark 0x7531 lookup 30001".to_owned())
    );
    assert_eq!(stale_policy_rule("0: from all lookup local\n"), None);
    assert!(interception_rule_present(
        "30001:\tfrom all fwmark 0x7531/0x7531 lookup 30001\n"
    ));
    assert!(!interception_rule_present("0: from all lookup local\n"));
    assert_eq!(stale_marker("-A X CSQTT_SOCKS"), Some("CSQTT_SOCKS"));
    assert_eq!(stale_marker("-A X"), None);
    let interfaces = exempt_interfaces(
        "-A POSTROUTING -o eth1 -m comment --comment CSQTT_SOCKS -j RETURN\n\
         -A POSTROUTING -o eth0 -m comment --comment CSQTT_LOCAL_SOCKS -j RETURN\n\
         -A POSTROUTING -o wlan0 -j RETURN\n",
    );
    let names: Vec<&str> = interfaces
        .entries
        .iter()
        .map(|entry| entry.key.as_str())
        .collect();
    assert_eq!(names, ["eth0", "eth1"]);
}

#[test]
fn a_child_is_waited_for_and_started_again() {
    assert_eq!(child_wait(true, false, false), ChildWait::Ready);
    assert_eq!(child_wait(false, true, false), ChildWait::Exited);
    assert_eq!(child_wait(false, false, true), ChildWait::Late);
    assert_eq!(child_wait(false, false, false), ChildWait::Wait);
    assert_eq!(
        start_retry(1, "bind TPROXY child 1: Address already in use"),
        StartRetry::Again
    );
    assert_eq!(start_retry(1, "denied"), StartRetry::Fail);
}

#[test]
fn only_the_active_runtime_releases_its_policy() {
    let mut active = 4;
    assert!(!release_policy(&mut active, 3));
    assert_eq!(active, 4);
    assert!(release_policy(&mut active, 4));
    assert_eq!(active, 0);
    let mut other = config();
    assert!(profile_matches(&config(), &other));
    other.port = 1;
    assert!(!profile_matches(&config(), &other));
}

#[test]
fn a_silent_port_is_looked_at_less_and_less_often() {
    let mut monitor = ProxyMonitor::new();
    assert_eq!(monitor.look(true, RouteState::Absent), MonitorStep::CheckPort);
    let mut waits = Vec::new();
    for _ in 0..6 {
        monitor.port_checked(false, false);
        waits.push(monitor.wait_ms.unwrap());
    }
    assert_eq!(&waits[..4], &[3_000; 4]);
    assert!(waits[4] > 3_000);
    assert_eq!(waits[5], 3_000);
    monitor.wake(true);
    assert_eq!(monitor.port_failures, 0);
    assert_eq!(
        monitor.port_checked(false, true),
        MonitorStep::Connect
    );
    monitor.connect_finished();
    assert_eq!(monitor.port_checked(true, true), MonitorStep::Healthy);
    assert_eq!(monitor.port_checked(true, false), MonitorStep::DropSilent);
    assert_eq!(monitor.look(true, RouteState::Stale), MonitorStep::DropStale);
    assert_eq!(monitor.look(false, RouteState::Current), MonitorStep::Disable);
    assert_eq!(monitor.look(false, RouteState::Absent), MonitorStep::Idle);
    assert_eq!(monitor.wait_ms, None);
}

#[test]
fn shared_routing_is_taken_back() {
    let commands = cleanup_shared_rules();
    let lines: Vec<String> = commands.iter().map(line).collect();
    assert_eq!(
        lines,
        [
            "ip rule del fwmark 0x7531/0x7531 priority 30001 table 30001",
            "ip route flush table 30001",
            "ip route flush cache",
        ]
    );
    assert_eq!(commands[0].mode, CommandMode::UntilFailure);
    assert_eq!(commands[1].mode, CommandMode::BestEffort);
    assert_eq!(line(&flush_route_cache()), lines[2]);
    assert_eq!(
        line(&loosen_path_filter()),
        "sysctl -w net.ipv4.conf.csqtt1.rp_filter=2"
    );
}

#[test]
fn the_packet_filter_waits_for_its_lock() {
    let args = vec!["-t".to_owned(), "nat".to_owned()];
    assert_eq!(
        start_arguments("iptables", &args),
        ["-w", "2", "-t", "nat"]
    );
    assert_eq!(start_arguments("ip", &args), ["-t", "nat"]);
}

#[test]
fn a_running_stream_answers_every_event() {
    let sent = |step: StreamStep| match step {
        StreamStep::Send(frame) => frame,
        other => panic!("{other:?}"),
    };
    assert_eq!(
        sent(stream_step(7, StreamEvent::Connected)),
        encode_frame(OPEN_OK, 7, b"")
    );
    assert_eq!(
        sent(stream_step(7, StreamEvent::Read(b"page".to_vec()))),
        encode_frame(DATA, 7, b"page")
    );
    assert!(matches!(
        stream_step(7, StreamEvent::Read(Vec::new())),
        StreamStep::End(false)
    ));
    assert!(matches!(
        stream_step(7, StreamEvent::ConnectFailed),
        StreamStep::End(true)
    ));
    assert!(matches!(
        stream_step(7, StreamEvent::Broken),
        StreamStep::End(true)
    ));
    match stream_step(
        7,
        StreamEvent::Input(Some(StreamInput::Data(b"query".to_vec()))),
    ) {
        StreamStep::Write(bytes) => assert_eq!(bytes, b"query"),
        other => panic!("{other:?}"),
    }
    assert!(matches!(
        stream_step(7, StreamEvent::Input(Some(StreamInput::Close))),
        StreamStep::End(false)
    ));
    assert!(matches!(
        stream_step(7, StreamEvent::Input(None)),
        StreamStep::End(false)
    ));
}

#[test]
fn refused_profiles_are_explained() {
    let mut value = config();
    value.host = "localhost".to_owned();
    assert_eq!(
        validate_config(&value).unwrap_err().message(),
        "SOCKS5 host must be an IPv4 address"
    );
    value.host = "224.0.0.1".to_owned();
    assert_eq!(
        validate_config(&value).unwrap_err().message(),
        "SOCKS5 host must be a unicast IPv4 address"
    );
    for (error, text) in [
        (ProfileError::Port, "SOCKS5 port must be in range 1-65535"),
        (
            ProfileError::CredentialsTooLong,
            "SOCKS5 username and password must not exceed 255 bytes",
        ),
        (
            ProfileError::UsernameMissing,
            "SOCKS5 username is required when a password is set",
        ),
        (
            ProfileError::ControlCharacter,
            "SOCKS5 credentials must not contain control characters",
        ),
    ] {
        assert_eq!(error.message(), text);
    }
}
