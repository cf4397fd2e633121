use csqtt::server::live_report::{
    clock_text, dpi_request, is_inbound, render_dpi, render_monitor, DpiFrame, MonitorFrame,
    LAST_SECOND,
};
use csqtt::server::metrics::{
    render_metric_all, CgroupMemory, FixedBuffers, MappingCategory, MappingMemory, MetricFrame,
    ProcessMemory, RollupMemory, RuntimeMemory, SocketMemory, StorageSizes,
};
use csqtt::server::perf_report::{
    render_perf_all, thread_shares, PerfFrame, PerfRow, PerfThread, SampledRow,
};
use csqtt::server::report::{format_metric_bytes, format_metric_kib, format_metric_limit};

fn with_floats(bytes: u64) -> String {
    const UNITS: [&str; 5] = ["B", "KiB", "MiB", "GiB", "TiB"];
    let mut value = bytes as f64;
    let mut unit = 0usize;
    while value >= 1024.0 && unit + 1 < UNITS.len() {
        value /= 1024.0;
        unit += 1;
    }
    if unit == 0 {
        format!("{bytes} B")
    } else if value >= 100.0 {
        format!("{value:.0} {}", UNITS[unit])
    } else if value >= 10.0 {
        format!("{value:.1} {}", UNITS[unit])
    } else {
        format!("{value:.2} {}", UNITS[unit])
    }
}

#[test]
fn sizes_have_three_digits_and_a_unit() {
    assert_eq!(format_metric_bytes(0), "0 B");
    assert_eq!(format_metric_bytes(1_023), "1023 B");
    assert_eq!(format_metric_bytes(1_024), "1.00 KiB");
    assert_eq!(format_metric_bytes(10_240), "10.0 KiB");
    assert_eq!(format_metric_bytes(102_400), "100 KiB");
    assert_eq!(format_metric_bytes(5 << 30), "5.00 GiB");
    assert_eq!(format_metric_bytes(u64::MAX), "16777216 TiB");
    assert_eq!(format_metric_kib(2_048), "2.00 MiB");
    assert_eq!(format_metric_kib(u64::MAX), "16777216 TiB");
    assert_eq!(format_metric_limit(Some(1)), "1 B");
    assert_eq!(format_metric_limit(None), "без лимита / н/д");
}

#[test]
fn sizes_are_rounded_as_doubles_are_printed() {
    let mut value = 1u64;
    for step in 0..4_000u64 {
        value = value
            .wrapping_mul(6_364_136_223_846_793_005)
            .wrapping_add(1_442_695_040_888_963_407);
        let sample = value >> (step % 64);
        assert_eq!(format_metric_bytes(sample), with_floats(sample), "{sample}");
    }
    for base in [1_024u64, 10_240, 102_400, 1 << 20, 1 << 40, 1 << 53, 1 << 60] {
        for offset in 0..2_048u64 {
            for sample in [base + offset, base - offset, base + offset * (base / 2_048)] {
                assert_eq!(format_metric_bytes(sample), with_floats(sample), "{sample}");
            }
        }
    }
}

fn frame() -> MetricFrame {
    MetricFrame {
        pid: 7,
        process: ProcessMemory {
            available: true,
            rss_kib: 1_024,
            peak_rss_kib: 2_048,
            threads: 3,
            swap_kib: 0,
            anonymous_kib: 1,
            file_kib: 2,
            shmem_kib: 3,
        },
        smaps_rollup: RollupMemory {
            available: false,
            rss_kib: 0,
            pss_kib: 0,
            private_kib: 0,
            shared_kib: 0,
            swap_kib: 0,
            swap_pss_kib: 0,
            pss_anon_kib: 0,
            pss_file_kib: 0,
            pss_shmem_kib: 0,
            anonymous_kib: 0,
        },
        mappings: MappingMemory {
            available: true,
            categories: vec![MappingCategory {
                category: "heap".to_owned(),
                rss_kib: 1,
                pss_kib: 2,
                private_kib: 3,
                shared_kib: 4,
            }],
        },
        cgroup: CgroupMemory {
            available: false,
            version: String::new(),
            current_bytes: 0,
            peak_bytes: 0,
            max_bytes: None,
            swap_current_bytes: None,
            swap_max_bytes: None,
            anon_bytes: 0,
            file_bytes: 0,
            shmem_bytes: 0,
            sock_bytes: 0,
            kernel_stack_bytes: 0,
            pagetables_bytes: 0,
            percpu_bytes: 0,
            slab_reclaimable_bytes: 0,
            slab_unreclaimable_bytes: 0,
            file_mapped_bytes: 0,
            file_dirty_bytes: 0,
        },
        sockets: SocketMemory {
            available: false,
            socket_fds: 0,
            udp_sockets: 0,
            udp_tx_queue_bytes: 0,
            udp_rx_queue_bytes: 0,
            tcp_sockets: 0,
            tcp_tx_queue_bytes: 0,
            tcp_rx_queue_bytes: 0,
        },
        fixed_buffers: FixedBuffers {
            packet_pool_capacity_slots: 1,
            packet_pool_allocated_slots: 2,
            packet_pool_allocated_payload_bytes: 3,
            packet_pool_retained_slots: 4,
            packet_capacity_bytes: 2_048,
            udp_tx_slots: 5,
            udp_tx_payload_bytes: 6,
            udp_tx_in_use_slots: 7,
            tun_tx_slots: 8,
            tun_tx_payload_bytes: 9,
            tun_tx_in_use_slots: 10,
            udp_rx_mode: "batch".to_owned(),
            udp_rx_slots: 11,
            udp_rx_slot_bytes: 12,
            udp_rx_payload_bytes: 13,
            tun_rx_payload_bytes: 14,
            fixed_payload_bytes: 15,
            udp_socket_rcvbuf_request_bytes: 16,
            udp_socket_sndbuf_request_bytes: 17,
        },
        runtime: RuntimeMemory {
            allocator: "system".to_owned(),
            hot_sessions: 1,
            hot_session_capacity: 2,
            hot_session_limit: 3,
            public_sessions: 4,
            public_session_capacity: 5,
            max_stream_workers_per_device: 126,
            engine_epochs: 6,
            device_epochs: 7,
            device_epoch_capacity: 8,
            derived_keys: 9,
            derived_key_string_capacity_bytes: 10,
            web_sessions: 11,
            web_session_limit: 12,
            web_session_key_capacity_bytes: 13,
            login_limits: 14,
            login_limit_limit: 15,
            login_limit_key_capacity_bytes: 16,
            log_entries: 17,
            log_entry_limit: 600,
            log_string_capacity_bytes: 18,
            log_ring_metadata_capacity_bytes: 19,
            dpi_entries: 20,
            dpi_entry_capacity: 21,
            dpi_retained_bytes: 22,
            stream_repairs: 23,
            stream_inventory: 24,
            dataplane_commands_queued: 25,
            dataplane_command_capacity: 26,
            memory_trim_count: 27,
            local_proxy_active: true,
            local_proxy_tcp_sessions: 28,
            local_proxy_tcp_limit: 384,
            local_proxy_udp_flows: 29,
            local_proxy_udp_limit: 784,
            local_proxy_payload_allocated_bytes: 30,
            local_proxy_payload_retained_bytes: 31,
            local_proxy_opening_buffer_allocated_bytes: 32,
            local_proxy_payload_upper_bound_at_limit_bytes: 33,
        },
        storage: StorageSizes {
            sqlite_db_bytes: 4_096,
            sqlite_wal_bytes: 0,
            sqlite_shm_bytes: 1,
            log_file_bytes: 2,
        },
    }
}

#[test]
fn the_memory_report_has_its_sections() {
    let report = render_metric_all(&frame());
    assert!(report.starts_with("CSQTT METRIC ALL — снимок памяти сервера (PID 7)\n"));
    assert!(report.contains(
        "[Процесс /proc/self/status]\n\
         RSS 1.00 MiB · пик VmHWM 2.00 MiB · потоки 3 · swap 0 B\n\
         RSS-состав: anon 1.00 KiB · file 2.00 KiB · shmem 3.00 KiB\n\n\
         [smaps_rollup] недоступен\n\n"
    ));
    assert!(report.contains(
        "heap                     RSS   1.00 KiB · PSS   2.00 KiB · private   3.00 KiB · shared   4.00 KiB\n\n"
    ));
    assert!(report.contains("[cgroup memory] недоступна\n\n[Пул пакетов"));
    assert!(report.contains("UDP TX capacity 5 × 2.00 KiB = 6 B · занято 7/5\n"));
    assert!(report.contains("memory trim 27\n\n[Local SOCKS / TPROXY]\nактивен · TCP 28/384"));
    assert!(report.contains("SQLite db 4.00 KiB · WAL 0 B · SHM 1 B · log 2 B\n\nИнтерпретация"));
    assert!(report.ends_with("той же группы.\n"));
}

fn row(text: &str) -> PerfRow {
    PerfRow {
        per_second: text.to_owned(),
        per_operation: "2".to_owned(),
        share: "0.50".to_owned(),
    }
}

fn sampled(text: &str) -> SampledRow {
    SampledRow {
        figures: row(text),
        samples: 9,
    }
}

fn thread(tid: u32, user_cpu_ns: u64) -> PerfThread {
    PerfThread {
        tid,
        name: format!("t{tid}"),
        user_cpu_ns,
        system_cpu_ns: 1,
        total_share: "1.50".to_owned(),
        user_share: "1.00".to_owned(),
        system_share: "0.50".to_owned(),
    }
}

fn perf(threads: Vec<PerfThread>) -> PerfFrame {
    PerfFrame {
        active_sessions: 1,
        udp_rx_pps: 2,
        udp_tx_pps: 3,
        tun_rx_pps: 4,
        tun_tx_pps: 5,
        all_sample_interval: 64,
        readiness_wakeups_s: 6,
        recv_syscalls_s: 7,
        send_syscalls_s: 8,
        recv_batch_max: 9,
        rx_eagain_s: 10,
        tx_eagain_s: 11,
        partial_sendmmsg_s: 12,
        udp_rx_enobufs_s: 13,
        udp_tx_enobufs_s: 14,
        udp_rx_errors_s: 15,
        udp_tx_errors_s: 16,
        tun_rx_errors_s: 17,
        tun_tx_errors_s: 18,
        udp_tx_drops_s: 19,
        tun_tx_drops_s: 20,
        dispatch: sampled("100"),
        flush: sampled("1"),
        bookkeeping: sampled("1"),
        sampled_share: "3.00".to_owned(),
        dataplane_share: "4.00".to_owned(),
        process_share: "5.00".to_owned(),
        user_share: "6.00".to_owned(),
        system_share: "7.00".to_owned(),
        other_threads_share: "8.00".to_owned(),
        unattributed_share: "9.00".to_owned(),
        threads,
        sampling_biased: false,
        udp_rx: sampled("1"),
        unwrap: row("1"),
        route_replay: sampled("1"),
        tun_write: sampled("1"),
        tun_rx: sampled("1"),
        wrap: row("1"),
        udp_queue: row("1"),
    }
}

#[test]
fn the_profile_has_its_columns() {
    let report = render_perf_all(&perf(vec![thread(5, 10)]));
    assert!(report.contains("Сессий: 1 · UDP RX/TX: 2/3 pps · TUN RX/TX: 4/5 pps · выборка 1/64\n\n"));
    let dispatch = format!(
        "{:<24} {:>9} оп/с  {:>9} нс/оп  {:>7}% ядра  выборок: 9\n",
        "Dispatch (всего)", 100, 2, "0.50"
    );
    assert!(report.contains(&dispatch));
    let total = format!("{:<24} {:>31}% ядра\n", "DATAPLANE THREAD ТОЧНО", "4.00");
    assert!(report.contains(&total));
    let split = format!(
        "{:<24} {:>20}% user · {:>6}% system\n",
        "ПРОЦЕСС CPU SPLIT", "6.00", "7.00"
    );
    assert!(report.contains(&split));
    let line = format!(
        "{:<18} tid {:>7} {:>7}% · {:>6}% user · {:>6}% system\n\n",
        "t5", 5, "1.50", "1.00", "0.50"
    );
    assert!(report.contains(&line));
    assert!(!report.contains("ещё потоков"));
    assert!(!report.contains("смещена"));
    let mut many = perf((0..20).map(|tid| thread(tid, 1)).collect());
    many.sampling_biased = true;
    let report = render_perf_all(&many);
    assert!(report.contains("ещё потоков: 4\n\n"));
    assert!(report.contains("Sampled-оценка смещена"));
    assert!(!render_perf_all(&perf(Vec::new())).contains("разбивка"));
}

#[test]
fn processor_time_is_attributed_to_threads() {
    let threads = vec![thread(1, 9), thread(2, 19), thread(2, 99)];
    assert_eq!(thread_shares(&threads, 2, 200), (110, 70));
    assert_eq!(thread_shares(&threads, 3, 100), (130, 0));
    let full = vec![thread(1, u64::MAX), thread(2, 5)];
    assert_eq!(thread_shares(&full, 1, 7), (0, 0));
}

#[test]
fn the_monitor_shows_rates_in_columns() {
    let frame = MonitorFrame {
        active_sessions: 2,
        udp_rx_pps: 10,
        udp_rx_bps: 2_000,
        udp_rx_errors_s: 1,
        udp_tx_pps: 3,
        udp_tx_bps: 4,
        udp_tx_errors_s: 5,
        udp_tx_drops_s: 6,
        tun_rx_pps: 7,
        tun_rx_bps: 8,
        tun_rx_errors_s: 9,
        tun_tx_pps: 10,
        tun_tx_bps: 11,
        tun_tx_errors_s: 12,
        tun_tx_drops_s: 13,
        recv_syscalls_s: 14,
        send_syscalls_s: 15,
        readiness_wakeups_s: 16,
        recv_batch_max: 17,
        rx_eagain_s: 18,
        tx_eagain_s: 19,
        partial_sendmmsg_s: 20,
        crypto_ops_s: 21,
        free_udp_tx_slots: 22,
        free_tun_tx_slots: 23,
        total_udp_rx_packets: 24,
        total_udp_tx_packets: 25,
        total_tun_rx_packets: 26,
        total_tun_tx_packets: 27,
    };
    let screen = render_monitor(&frame);
    assert!(screen.starts_with("\x1b[2J\x1b[H\x1b[1;36m═══"));
    assert!(screen.contains("▲ UDP RX  \x1b[0m       10 pps        2000 B/s  err: 1\n"));
    assert!(screen.contains("totals    │ UDP RX: 24  UDP TX: 25  TUN RX: 26  TUN TX: 27\x1b[0m\n"));
}

#[test]
fn inspected_packets_are_described() {
    let mut frame = DpiFrame {
        timestamp_ms: 1_786_017_600_999,
        direction: "INBOUND".to_owned(),
        src: "a".to_owned(),
        dst: "b".to_owned(),
        len: 5,
        wire_len: 9,
        pt: 111,
        proto: "TCP".to_owned(),
        seq: 3,
        device_id: "dev".to_owned(),
        gen_id: 4,
        salt: "s".to_owned(),
        detail: "d".to_owned(),
        hex_preview: String::new(),
    };
    let text = render_dpi(&frame);
    assert!(text.starts_with("[\x1b[2m12:00:00\x1b[0m] \x1b[1;32m▲ INBOUND \x1b[0m | "));
    assert!(text.contains("RTP-Audio (PT=111)"));
    assert!(!text.contains("Preview"));
    frame.pt = 96;
    frame.direction = "OUTBOUND".to_owned();
    assert!(render_dpi(&frame).contains("RTP-Video (PT=96)"));
    frame.pt = 0;
    frame.hex_preview = "00 01".to_owned();
    let text = render_dpi(&frame);
    assert!(text.contains("▼ OUTBOUND"));
    assert!(text.contains("\x1b[1;36mTCP\x1b[0m"));
    assert!(text.contains("  Hex & ASCII Preview:\n\x1b[2m00 01\x1b[0m\n"));
    assert_eq!(dpi_request(50), "GET_DPI:50\n");
}

#[test]
fn packets_have_a_time_of_day_and_a_direction() {
    assert_eq!(clock_text(0), "00:00:00");
    assert_eq!(clock_text(999), "00:00:00");
    assert_eq!(clock_text(86_399_999), "23:59:59");
    assert_eq!(clock_text(86_400_000), "00:00:00");
    assert_eq!(clock_text(1_786_000_000_000), "07:06:40");
    let last = LAST_SECOND as u64;
    assert_eq!(clock_text(last * 1000), "23:59:59");
    assert_eq!(clock_text((last + 1) * 1000 + 61_000), "00:00:00");
    assert_eq!(clock_text(u64::MAX), "00:00:00");
    assert!(is_inbound("INBOUND"));
    assert!(!is_inbound("inbound"));
    assert!(!is_inbound("OUTBOUND"));
}
