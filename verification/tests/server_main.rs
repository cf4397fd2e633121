use csqtt::addr::{Endpoint, IpAddress, Ipv4};
use csqtt::server::cpu::{cpu_percentage, parse_host_cpu, parse_process_cpu, CpuSnapshot};
use csqtt::server::dataplane::{
    decrement_queue_len, drain_step, flush_step, read_budget, shutdown_result, tun_read_step,
    Attempt, DataplaneConfig, DataplaneHandle, DrainEvent, DrainStep, FlushStep, PassAction,
    PassCounters, PassEvent, PassState, ShutdownResult, Supervisor, SupervisorStep, ThreadEnd,
    TunRead, TunReadStep, COMMAND_DRAIN_LIMIT,
};
use csqtt::server::diagnostics::{
    IoCounters, Reading, SampleStep, SampledStages, Sampler, StageCounters, ThreadCpuSnapshot,
};
use csqtt::server::keys::{
    clamp_secret, derive_wrap_key, generate_key_pair, key_pair_from, password_from_bytes,
    random_password, random_token, KeyError,
};
use csqtt::server::log_record::{
    append_utf8_prefix, format_log_record, log_file_is_full, utf8_prefix, LogRing, LOG_RING_CAPACITY,
    LOG_TRUNCATION_SUFFIX, MAX_LOG_RECORD_BYTES,
};
use csqtt::server::model::{ClientDevice, Database};
use csqtt::server::net_setup::{network, TunnelNetwork};
use csqtt::server::startup::{
    apply_startup_settings, certificate_names, certificate_step, device_epoch_expired,
    migrate_device_addresses, normalize_dns, parse_command, resolve_dns, restart_due,
    restart_requested, restart_wait, select_mode, sweep_device_epochs,
    tproxy_parent_exited_during_startup,
    CertificateStep, Command, DeployOverrides, DnsError, MigrationError, Mode, ModeOptions,
    RestartStep,
};
use csqtt::text_map::TextMap;

#[test]
fn docker_tproxy_child_accepts_a_healthy_pid_one_parent() {
    assert!(tproxy_parent_exited_during_startup(1, false));
    assert!(!tproxy_parent_exited_during_startup(1, true));
    assert!(!tproxy_parent_exited_during_startup(42, false));
}

#[test]
fn log_record_is_utf8_safe_and_byte_bounded() {
    let record = format_log_record("22 Aug 26 12:00", "INFO", &"\u{0451}\u{0436}".repeat(2_000));

    assert!(record.len() <= MAX_LOG_RECORD_BYTES);
    assert!(std::str::from_utf8(record.as_bytes()).is_ok());
    assert!(record.ends_with(LOG_TRUNCATION_SUFFIX));
}

#[test]
fn log_record_caps_an_oversized_level() {
    let record = format_log_record("22 Aug 26 12:00", &"\u{041b}".repeat(2_000), "ok");

    assert!(record.len() <= MAX_LOG_RECORD_BYTES);
    assert!(std::str::from_utf8(record.as_bytes()).is_ok());
}

#[test]
fn dns_override_accepts_one_or_two_ipv4_addresses() {
    assert_eq!(normalize_dns("8.8.8.8").unwrap(), "8.8.8.8");
    assert_eq!(
        normalize_dns(" 8.8.8.8, 8.8.4.4 ").unwrap(),
        "8.8.8.8,8.8.4.4"
    );
}

#[test]
fn dns_override_rejects_invalid_or_excess_addresses() {
    assert!(normalize_dns("").is_err());
    assert!(normalize_dns("example.org").is_err());
    assert!(normalize_dns("1.1.1.1,1.0.0.1,8.8.8.8").is_err());
}

#[test]
fn parses_linux_cpu_counters_and_process_name_with_spaces() {
    let host = "cpu  100 2 30 400 10 0 0 0 0 0\ncpu0 50 1 15 200\ncpu1 50 1 15 200\n";
    assert_eq!(parse_host_cpu(host), Some((542, 2)));
    let process = "77 (csqtt worker) R 1 2 3 4 5 6 7 8 9 10 11 12 13 14";
    assert_eq!(parse_process_cpu(process), Some(23));
}

#[test]
fn calculates_process_cpu_in_one_core_percent() {
    let previous = CpuSnapshot {
        total: 2_000,
        process: 100,
        cores: 4,
    };
    let current = CpuSnapshot {
        total: 2_100,
        process: 120,
        cores: 4,
    };
    assert_eq!(cpu_percentage(previous, current), Some(80));
}

#[test]
fn cpu_readings_need_progress_and_whole_lines() {
    let snapshot = CpuSnapshot {
        total: 10,
        process: 1,
        cores: 1,
    };
    assert_eq!(cpu_percentage(snapshot, snapshot), None);
    assert_eq!(parse_host_cpu(""), None);
    assert_eq!(parse_process_cpu("77 csqtt R 1 2"), None);
}

#[test]
fn a_message_that_fits_is_kept() {
    let record = format_log_record("t", "INFO", "привет");
    assert!(record.contains("INFO"));
    assert!(record.contains("привет"));
    assert!(!record.contains(LOG_TRUNCATION_SUFFIX));
    assert_eq!(utf8_prefix("жж", 3), "ж");
    assert_eq!(utf8_prefix("ab", 3), "ab");
    let mut target = "x".repeat(MAX_LOG_RECORD_BYTES - 3);
    append_utf8_prefix(&mut target, "жж");
    assert_eq!(target.len(), MAX_LOG_RECORD_BYTES - 1);
}

#[test]
fn the_log_keeps_the_newest_records() {
    let mut ring = LogRing::new();
    for number in 0..LOG_RING_CAPACITY + 5 {
        ring.push(number.to_string());
    }
    assert_eq!(ring.len(), LOG_RING_CAPACITY);
}

#[test]
fn resolvers_have_an_order_of_preference() {
    assert_eq!(resolve_dns(Some("8.8.8.8"), "9.9.9.9", "1.0.0.1").unwrap(), "8.8.8.8");
    assert_eq!(resolve_dns(Some(" "), "9.9.9.9", "1.0.0.1").unwrap(), "9.9.9.9");
    assert_eq!(resolve_dns(None, "", "1.0.0.1").unwrap(), "1.0.0.1");
    assert_eq!(resolve_dns(None, "", "").unwrap(), "1.1.1.1");
    assert!(matches!(resolve_dns(Some(","), "", ""), Err(DnsError::Count)));
    assert!(
        matches!(normalize_dns("1.1.1.1,host"), Err(DnsError::InvalidAddress(a)) if a == "host")
    );
    let normal = normalize_dns(" 8.8.8.8 ,8.8.4.4").unwrap();
    assert_eq!(normalize_dns(&normal).unwrap(), normal);
}

#[test]
fn command_lines_are_commands() {
    let command = |args: &[&str]| {
        parse_command(&args.iter().map(|arg| (*arg).to_owned()).collect::<Vec<_>>())
    };
    assert_eq!(command(&["csqtt"]), Command::Help);
    assert_eq!(command(&["csqtt", "--help"]), Command::Help);
    assert_eq!(command(&["csqtt", "start"]), Command::Start);
    assert_eq!(command(&["csqtt", "stop"]), Command::Stop);
    assert_eq!(command(&["csqtt", "restart"]), Command::Restart);
    assert_eq!(command(&["csqtt", "dpi", "s", "50"]), Command::Dpi(50));
    assert_eq!(command(&["csqtt", "dpi"]), Command::Dpi(0));
    assert_eq!(command(&["csqtt", "syscalls"]), Command::Syscalls);
    assert_eq!(command(&["csqtt", "perf", "all"]), Command::Perf);
    assert_eq!(command(&["csqtt", "perf"]), Command::PerfUsage);
    assert_eq!(command(&["csqtt", "metric", "all"]), Command::Metric);
    assert_eq!(command(&["csqtt", "metric", "x"]), Command::MetricUsage);
    assert_eq!(command(&["csqtt", "--listen", "x"]), Command::Serve);
}

#[test]
fn the_mode_follows_options_and_user() {
    let mut options = ModeOptions {
        start: false,
        stop: false,
        restart: false,
        dpi: false,
        samples: 0,
        tproxy_child: false,
    };
    assert_eq!(select_mode(options, 1000), Mode::NotRoot);
    assert_eq!(select_mode(options, 0), Mode::Server);
    options.tproxy_child = true;
    assert_eq!(select_mode(options, 0), Mode::TproxyChild);
    options.samples = 3;
    assert_eq!(select_mode(options, 1000), Mode::Dpi(3));
    options.restart = true;
    assert_eq!(select_mode(options, 0), Mode::Restart);
    options.stop = true;
    assert_eq!(select_mode(options, 0), Mode::Stop);
    options.start = true;
    assert_eq!(select_mode(options, 0), Mode::Start);
}

fn device(ip: &str) -> ClientDevice {
    ClientDevice {
        device_id: String::new(),
        ip: ip.to_owned(),
        priv_key: String::new(),
        pub_key: String::new(),
        up_bytes: 0,
        down_bytes: 0,
        bound_password: String::new(),
        last_session_salt: String::new(),
        last_generation_id: 0,
    }
}

#[test]
fn devices_keep_their_host_numbers() {
    let network = TunnelNetwork::parse("172.23.45.0/24").unwrap();
    let mut db = Database::new();
    db.devices.insert("a".to_owned(), device("10.66.67.2"));
    db.devices.insert("b".to_owned(), device("10.66.67.250"));
    assert!(migrate_device_addresses(&mut db, &network).is_ok());
    assert_eq!(db.devices.get("a").unwrap().ip, "172.23.45.2");
    assert_eq!(db.devices.get("b").unwrap().ip, "172.23.45.250");
    db.devices.insert("c".to_owned(), device("10.0.0.2"));
    assert_eq!(
        migrate_device_addresses(&mut db, &network),
        Err(MigrationError::HostConflict)
    );
    let mut db = Database::new();
    db.devices.insert("a".to_owned(), device("nowhere"));
    assert_eq!(
        migrate_device_addresses(&mut db, &network),
        Err(MigrationError::InvalidAddress)
    );
}

#[test]
fn settings_come_from_the_first_that_has_them() {
    let mut db = Database::new();
    db.main_password = "saved".to_owned();
    db.admin_id = "admin".to_owned();
    db.set_auto_restart_interval_hours(7);
    let overrides = DeployOverrides {
        main_password: String::new(),
        device_id: "deployed".to_owned(),
        dns: String::new(),
    };
    apply_startup_settings(&mut db, "", "", &overrides, "made", "1.1.1.1".to_owned());
    assert_eq!(db.main_password, "saved");
    assert_eq!(db.main_device_id, "deployed");
    assert_eq!(db.admin_id, "");
    assert_eq!(db.auto_restart_interval_hours(), 0);
    let mut fresh = Database::new();
    apply_startup_settings(&mut fresh, "", "", &overrides, "made", String::new());
    assert_eq!(fresh.main_password, "made");
    apply_startup_settings(&mut fresh, "given", "own", &overrides, "made", String::new());
    assert_eq!(fresh.main_password, "given");
    assert_eq!(fresh.main_device_id, "own");
}

#[test]
fn certificates_name_the_host() {
    assert_eq!(certificate_step(true, true), CertificateStep::Load);
    assert_eq!(certificate_step(false, false), CertificateStep::Generate);
    assert_eq!(certificate_step(true, false), CertificateStep::Incomplete);
    let outward = IpAddress::V4(Ipv4::new([203, 0, 113, 9]));
    assert_eq!(
        certificate_names(Some(" host\n"), Some(outward), "203.0.113.9"),
        ["localhost", "127.0.0.1", "host", "203.0.113.9"]
    );
    let inward = IpAddress::V4(Ipv4::new([127, 0, 0, 1]));
    assert_eq!(
        certificate_names(Some(""), Some(inward), "127.0.0.1"),
        ["localhost", "127.0.0.1"]
    );
}

#[test]
fn restarts_are_planned() {
    assert_eq!(restart_wait(0, 0, 100), None);
    assert_eq!(restart_wait(12, 1_000, 1_000), Some(43_200));
    assert_eq!(restart_wait(12, 1_000, 50_000), Some(0));
    assert_eq!(restart_wait(12, 1_000, 0), Some(0));
    let mut pending = false;
    assert_eq!(restart_due(&mut pending), RestartStep::Request);
    assert_eq!(restart_due(&mut pending), RestartStep::Done);
    assert!(restart_requested(&mut pending, false));
    assert!(!pending);
    assert!(device_epoch_expired(3_600_000, 0, false));
    assert!(!device_epoch_expired(3_600_000, 0, true));
    assert!(!device_epoch_expired(3_599_999, 0, false));
}

#[test]
fn wrap_keys_are_derived_from_the_password() {
    assert_eq!(
        derive_wrap_key("secret").unwrap(),
        [
            19, 27, 19, 189, 154, 62, 168, 243, 37, 70, 33, 167, 15, 152, 51, 173, 25, 45, 241,
            134, 223, 217, 29, 75, 73, 48, 7, 145, 30, 5, 181, 72
        ]
    );
    assert_eq!(derive_wrap_key(""), Err(KeyError::EmptyPassword));
}

#[test]
fn key_pairs_are_those_of_the_curve() {
    let mut secret = [0u8; 32];
    for (index, byte) in secret.iter_mut().enumerate() {
        *byte = index as u8 + 1;
    }
    let (private, public) = key_pair_from(secret);
    assert_eq!(private, "AAIDBAUGBwgJCgsMDQ4PEBESExQVFhcYGRobHB0eH2A=");
    assert_eq!(public, "B6N8vBQgk8i3VdwbEOhstCY3StFqqFPtC9/AsrhtHHw=");
    let clamped = clamp_secret([0xff; 32]);
    assert_eq!((clamped[0], clamped[31]), (0xf8, 0x7f));
    assert_eq!(clamp_secret(clamped), clamped);
    let (one, _) = generate_key_pair();
    let (two, _) = generate_key_pair();
    assert_ne!(one, two);
    assert_eq!(one.len(), 44);
}

#[test]
fn passwords_and_tokens_are_random() {
    assert_eq!(password_from_bytes(&[0, 54, 55, 255]), "A9An");
    let password = random_password();
    assert_eq!(password.len(), 16);
    assert!(!password.contains(['0', '1', 'I', 'O', 'i', 'l', 'o']));
    assert_ne!(password, random_password());
    assert_eq!(random_token(12).len(), 16);
    assert_eq!(random_token(0), "");
    assert!(!random_token(64).contains(['+', '/', '=']));
}

#[test]
fn commands_are_counted() {
    let listen = Endpoint {
        ip: IpAddress::V4(Ipv4::new([0, 0, 0, 0])),
        port: 46_000,
    };
    let mut config = DataplaneConfig::new(listen, &network());
    assert_eq!(config.tun_iface, "csqtt1");
    config.command_capacity = 1;
    assert_eq!(config.queue_capacity(), 16);
    let mut handle = DataplaneHandle::new(&config);
    assert!(handle.try_send(true).is_ok());
    assert!(handle.try_send(false).is_err());
    assert_eq!(handle.command_queue_snapshot().queued, 1);
    handle.command_taken();
    handle.command_taken();
    assert_eq!(handle.command_queue_snapshot().queued, 0);
    assert_eq!(decrement_queue_len(0), 0);
    handle.shutdown(true);
    assert!(handle.shutdown_flag);
}

#[test]
fn a_failed_loop_is_restarted_later_and_later() {
    let mut supervisor = Supervisor::new();
    assert_eq!(
        supervisor.after_attempt(Attempt::Failed, false, 0),
        SupervisorStep::Fail
    );
    let mut waits = Vec::new();
    for _ in 0..7 {
        match supervisor.after_attempt(Attempt::Panicked, false, 0) {
            SupervisorStep::Restart(ms) => waits.push(ms),
            _ => panic!("restart expected"),
        }
        assert!(supervisor.after_backoff(false));
    }
    assert_eq!(
        waits,
        [1_000, 2_000, 4_000, 8_000, 16_000, 30_000, 30_000]
    );
    assert_eq!(
        supervisor.after_attempt(Attempt::Failed, false, 60_000),
        SupervisorStep::Restart(1_000)
    );
    assert!(!supervisor.after_backoff(true));
    assert_eq!(
        supervisor.after_attempt(Attempt::Failed, true, 0),
        SupervisorStep::Stop
    );
}

fn counters(udp: u64, errors: u64) -> PassCounters {
    PassCounters {
        udp_rx_packets: udp,
        tun_rx_packets: 0,
        udp_rx_errors: errors,
        udp_tx_errors: 0,
        tun_rx_errors: 0,
        tun_tx_errors: 0,
    }
}

#[test]
fn udp_gives_way_after_a_run_of_passes() {
    let mut pass = PassState::new(counters(0, 0));
    for _ in 0..4 {
        assert!(!pass.udp_throttled());
        assert_eq!(
            pass.on_event(PassEvent::UdpReadable, false, false),
            PassAction::ReadUdp
        );
    }
    assert!(pass.udp_throttled());
    assert_eq!(
        pass.on_event(PassEvent::UdpReadable, false, false),
        PassAction::Ignore
    );
    assert_eq!(
        pass.on_event(PassEvent::TunReadable, false, false),
        PassAction::ReadTun
    );
    assert!(!pass.udp_throttled());
    assert_eq!(
        pass.on_event(PassEvent::UdpWritable, true, false),
        PassAction::FlushUdp
    );
    assert_eq!(
        pass.on_event(PassEvent::TunWritable, true, false),
        PassAction::Ignore
    );
    assert_eq!(
        pass.on_event(PassEvent::Cancelled, false, false),
        PassAction::Stop
    );
    assert_eq!(pass.finish_pass(counters(1_023, 0)), (false, false));
    assert_eq!(pass.finish_pass(counters(1_024, 0)), (true, false));
    assert_eq!(pass.finish_pass(counters(1_025, 1)), (true, false));
    assert_eq!(
        pass.on_event(PassEvent::Tick, false, false),
        PassAction::RunTick
    );
    assert_eq!(pass.finish_pass(counters(1_025, 1)), (false, true));
}

#[test]
fn commands_are_drained_in_batches() {
    assert_eq!(drain_step(0, DrainEvent::Command), DrainStep::Run);
    assert_eq!(
        drain_step(COMMAND_DRAIN_LIMIT - 1, DrainEvent::Command),
        DrainStep::RunLast
    );
    assert_eq!(drain_step(0, DrainEvent::Empty), DrainStep::Done);
    assert_eq!(drain_step(0, DrainEvent::Shutdown), DrainStep::Stop);
    assert_eq!(read_budget(10, 64, false), 54);
    assert_eq!(read_budget(10, 64, true), 0);
    assert_eq!(read_budget(70, 64, false), 0);
}

fn reading(at_ns: u64, packets: u64, thread_ns: u64) -> Reading {
    let io = IoCounters {
        udp_rx_packets: packets,
        udp_rx_bytes: 0,
        udp_rx_errors: 0,
        udp_tx_packets: 0,
        udp_tx_bytes: 0,
        udp_tx_errors: 0,
        udp_tx_drops: 0,
        tun_rx_packets: 0,
        tun_rx_bytes: 0,
        tun_rx_errors: 0,
        tun_tx_packets: 0,
        tun_tx_bytes: 0,
        tun_tx_errors: 0,
        tun_tx_drops: 0,
        readiness_wakeups: 0,
        udp_recv_syscalls: 0,
        udp_send_syscalls: 0,
        udp_rx_eagain: 0,
        udp_tx_eagain: 0,
        partial_sendmmsg: 0,
        free_udp_tx_slots: 5,
        free_tun_tx_slots: 6,
        udp_recv_batch_max: 7,
        udp_rx_enobufs: 0,
        udp_tx_enobufs: 0,
    };
    let stage = |samples: u64| StageCounters {
        operations: packets,
        samples,
        sampled_ns: at_ns,
    };
    Reading {
        timestamp_ms: 1_000 + at_ns,
        active_sessions: 3,
        dataplane_tid: 42,
        sampled: SampledStages {
            crypto_sample_interval: 64,
            chacha: stage(1),
            srtp: stage(2),
            unwrap_crypto: stage(3),
            wrap_crypto: stage(4),
            all_sample_interval: 128,
            dispatch: stage(5),
            flush: stage(6),
            bookkeeping: stage(7),
            udp_rx: stage(8),
            route_replay: stage(9),
            tun_write: stage(10),
            tun_rx: stage(11),
            udp_queue: stage(12),
        },
        at_ns,
        counters: io,
        crypto_ops: 0,
        process_cpu_ns: 0,
        process_user_ns: 0,
        process_system_ns: 0,
        dataplane_cpu_ns: 0,
        dataplane_sequence: 0,
        threads: vec![ThreadCpuSnapshot {
            tid: 1,
            name: "main".to_owned(),
            user_ns: thread_ns,
            system_ns: 0,
        }],
    }
}

#[test]
fn frames_show_what_changed_within_a_second() {
    let mut sampler = Sampler::new(reading(0, 0, 0));
    assert!(matches!(
        sampler.tick(0, false, reading(1, 5, 1)),
        SampleStep::Idle
    ));
    assert!(matches!(
        sampler.tick(1, true, reading(2, 10, 2)),
        SampleStep::Started
    ));
    match sampler.tick(1, true, reading(12, 30, 9)) {
        SampleStep::Frame(frame) => {
            assert_eq!(frame.sample_window_ns, 10);
            assert_eq!(frame.io.udp_rx_packets, 20);
            assert_eq!(frame.io.free_udp_tx_slots, 5);
            assert_eq!(frame.total_udp_rx_packets, 30);
            assert_eq!(frame.threads[0].user_cpu_ns, 7);
            let now = reading(12, 30, 9);
            assert_eq!(frame.timestamp_ms, 1_012);
            assert_eq!(frame.active_sessions, 3);
            assert_eq!(frame.dataplane_tid, 42);
            assert_eq!(frame.sampled, now.sampled);
            assert_eq!(frame.sampled.udp_queue.samples, 12);
        }
        _ => panic!("frame expected"),
    }
}

#[test]
fn unused_device_epochs_are_swept() {
    let mut epochs = TextMap::new();
    epochs.insert("fresh".to_owned(), 1_000_001_u64);
    epochs.insert("old".to_owned(), 1_000_000);
    epochs.insert("used".to_owned(), 0);
    sweep_device_epochs(&mut epochs, &vec!["used".to_owned()], 4_600_000);
    assert_eq!(epochs.get("fresh"), Some(&1_000_001));
    assert_eq!(epochs.get("old"), None);
    assert_eq!(epochs.get("used"), Some(&0));
    assert_eq!(epochs.len(), 2);
}

#[test]
fn an_error_of_the_thread_goes_first() {
    assert_eq!(
        shutdown_result(true, ThreadEnd::Finished),
        ShutdownResult::Done
    );
    assert_eq!(
        shutdown_result(true, ThreadEnd::TimedOut),
        ShutdownResult::Done
    );
    assert_eq!(
        shutdown_result(false, ThreadEnd::Finished),
        ShutdownResult::SignalFailed
    );
    assert_eq!(
        shutdown_result(false, ThreadEnd::Failed),
        ShutdownResult::ThreadFailed
    );
    assert_eq!(
        shutdown_result(true, ThreadEnd::Panicked),
        ShutdownResult::ThreadPanicked
    );
}

fn percentage_with_floats(previous: CpuSnapshot, current: CpuSnapshot) -> Option<u64> {
    let total_delta = current.total.checked_sub(previous.total)?;
    if total_delta == 0 {
        return None;
    }
    let process_delta = current.process.saturating_sub(previous.process);
    let process =
        (process_delta as f64 * current.cores as f64 * 100.0 / total_delta as f64).round() as u64;
    Some(process.min(current.cores.saturating_mul(100)))
}

#[test]
fn percentages_agree_with_doubles_for_all_sizes() {
    let mut state = 0x9e37_79b9_7f4a_7c15u64;
    let mut next = || {
        state ^= state << 13;
        state ^= state >> 7;
        state ^= state << 17;
        state
    };
    let zero = CpuSnapshot {
        total: 0,
        process: 0,
        cores: 1,
    };
    for _ in 0..200_000 {
        let shifts = next();
        let current = CpuSnapshot {
            total: next() >> (shifts % 64),
            process: next() >> (shifts / 64 % 64),
            cores: next() >> (shifts / 4096 % 64),
        };
        assert_eq!(
            cpu_percentage(zero, current),
            percentage_with_floats(zero, current),
            "{current:?}"
        );
    }
    let edges = [
        0,
        1,
        2,
        3,
        (1 << 52) - 1,
        1 << 52,
        (1 << 53) - 1,
        1 << 53,
        (1 << 53) + 1,
        (1 << 53) + 3,
        (1 << 54) + 2,
        u64::MAX / 100,
        u64::MAX / 2,
        (1 << 63) + 1024,
        u64::MAX - 1024,
        u64::MAX - 1023,
        u64::MAX,
    ];
    for total in edges {
        for process in edges {
            for cores in edges {
                let current = CpuSnapshot {
                    total,
                    process,
                    cores,
                };
                assert_eq!(
                    cpu_percentage(zero, current),
                    percentage_with_floats(zero, current),
                    "{current:?}"
                );
            }
        }
    }
    let current = CpuSnapshot {
        total: 7,
        process: 3,
        cores: (1 << 53) + 1,
    };
    assert_eq!(cpu_percentage(zero, current), Some(386_022_825_203_185_344));
}

#[test]
fn a_broken_tunnel_device_ends_the_run() {
    assert_eq!(
        tun_read_step(0, 64, TunRead::Packets(3)),
        TunReadStep::Again(3)
    );
    assert_eq!(
        tun_read_step(3, 64, TunRead::Packets(0)),
        TunReadStep::Done(3)
    );
    assert_eq!(
        tun_read_step(60, 64, TunRead::Packets(8)),
        TunReadStep::Done(68)
    );
    assert_eq!(tun_read_step(3, 64, TunRead::Failed), TunReadStep::Fail);
    assert_eq!(flush_step(true, true, true, false), FlushStep::Fail);
    assert_eq!(flush_step(true, false, false, false), FlushStep::Fail);
}

#[test]
fn what_waits_is_flushed_after_each_pass_and_at_the_end() {
    assert_eq!(flush_step(false, false, false, false), FlushStep::GoOn);
    assert_eq!(
        flush_step(false, true, false, false),
        FlushStep::Flush(Some(usize::MAX), false)
    );
    assert_eq!(
        flush_step(false, true, true, false),
        FlushStep::Flush(Some(usize::MAX), true)
    );
    assert_eq!(
        flush_step(false, false, true, true),
        FlushStep::Flush(None, true)
    );
    assert_eq!(
        flush_step(true, true, true, true),
        FlushStep::Flush(Some(16), true)
    );
    assert_eq!(flush_step(true, false, false, true), FlushStep::GoOn);
}

#[test]
fn the_log_file_is_bounded() {
    assert!(!log_file_is_full(8 * 1024 * 1024));
    assert!(log_file_is_full(8 * 1024 * 1024 + 1));
}
