use csqtt::client::dispatcher::{
    Dispatcher, ProxyRoutes, ProxySendError, ReturnAction, RETURN_BULK_CAPACITY, RETURN_CAPACITY,
    RETURN_LATENCY_CAPACITY, RETURN_PRIORITY_CAPACITY,
};
use csqtt::client::packet_queue::{packet_channel, PacketQueue, RecvPoll};
use csqtt::client::stream_proxy::encode_frame;
use csqtt::client::workers::{interleave_turn_paths, WorkerChannels};
use csqtt::frame::{CLOSE, DATA, OPEN};
use csqtt::packet::PacketClass;
use std::collections::VecDeque;

#[derive(Clone, Copy, Default)]
struct QueueCoverage {
    full_rejection: usize,
    forced_replacement: usize,
    inactive_rejection: usize,
    suspended: usize,
    resumed: usize,
    purged: usize,
}

impl QueueCoverage {
    fn complete(self) -> bool {
        self.full_rejection > 0
            && self.forced_replacement > 0
            && self.inactive_rejection > 0
            && self.suspended > 0
            && self.resumed > 0
            && self.purged > 0
    }
}

fn channels(id: usize, capacity: usize) -> WorkerChannels {
    WorkerChannels {
        id,
        incarnation_id: id as u64 + 1,
        turn_path: "test".to_owned(),
        latency: packet_channel(capacity, true),
        priority: packet_channel(capacity, true),
        bulk: packet_channel(capacity, true),
    }
}

#[test]
fn registered_workers_interleave_turn_paths() {
    let mut dispatcher = Dispatcher::new(false);
    for (id, turn_path) in [
        (1, "turn-a"),
        (2, "turn-a"),
        (3, "turn-b"),
        (4, "turn-b"),
        (5, "turn-c"),
        (6, "turn-c"),
    ] {
        let mut worker = channels(id, 1);
        worker.turn_path = turn_path.to_owned();
        dispatcher.register(worker);
    }
    let order: Vec<_> = dispatcher
        .workers
        .iter()
        .map(|worker| worker.turn_path.as_str())
        .collect();
    assert_eq!(
        order,
        ["turn-a", "turn-b", "turn-c", "turn-a", "turn-b", "turn-c"]
    );
}

fn queue_trace_outcome(actions: &[(u8, u8)], replace_oldest: bool) -> (bool, QueueCoverage) {
    let capacity = 7;
    let mut queue: PacketQueue = packet_channel(capacity, true);
    let mut model = VecDeque::new();
    let mut active = true;
    let mut coverage = QueueCoverage::default();
    for &(operation, value) in actions {
        match operation % 6 {
            0 => {
                let accepted = queue.try_send(vec![value]).is_ok();
                let expected = active && model.len() < capacity;
                if accepted != expected {
                    return (false, coverage);
                }
                if expected {
                    model.push_back(value);
                } else if active {
                    coverage.full_rejection += 1;
                } else {
                    coverage.inactive_rejection += 1;
                }
            }
            1 => {
                let accepted = queue.force_send(vec![value]).is_ok();
                if accepted != active {
                    return (false, coverage);
                }
                if active {
                    if model.len() == capacity {
                        coverage.forced_replacement += 1;
                        if replace_oldest {
                            model.pop_front();
                        } else {
                            model.pop_back();
                        }
                    }
                    model.push_back(value);
                } else {
                    coverage.inactive_rejection += 1;
                }
            }
            2 => {
                let actual = queue.try_recv().map(|packet| packet[0]);
                if actual != model.pop_front() {
                    return (false, coverage);
                }
            }
            3 => {
                queue.suspend();
                active = false;
                model.clear();
                coverage.suspended += 1;
            }
            4 => {
                queue.resume();
                active = true;
                model.clear();
                coverage.resumed += 1;
            }
            _ => {
                queue.purge();
                model.clear();
                coverage.purged += 1;
            }
        }
    }
    while let Some(expected) = model.pop_front() {
        if queue.try_recv().map(|packet| packet[0]) != Some(expected) {
            return (false, coverage);
        }
    }
    (queue.try_recv().is_none() && queue.len() == 0, coverage)
}

fn queue_trace_matches(actions: &[(u8, u8)], replace_oldest: bool) -> bool {
    queue_trace_outcome(actions, replace_oldest).0
}

fn mix64(mut value: u64) -> u64 {
    value = value.wrapping_add(0x9e37_79b9_7f4a_7c15);
    value = (value ^ (value >> 30)).wrapping_mul(0xbf58_476d_1ce4_e5b9);
    value = (value ^ (value >> 27)).wrapping_mul(0x94d0_49bb_1331_11eb);
    value ^ (value >> 31)
}

fn deterministic_queue_actions(seed: u64, length: usize) -> Vec<(u8, u8)> {
    let mut state = seed;
    let mut actions = Vec::with_capacity(length);
    let prefix = [
        (0, 1),
        (0, 2),
        (0, 3),
        (0, 4),
        (0, 5),
        (0, 6),
        (0, 7),
        (0, 8),
        (1, 9),
        (3, 0),
        (0, 10),
        (4, 0),
        (1, 11),
        (5, 0),
    ];
    actions.extend(prefix.into_iter().take(length));
    for _ in actions.len()..length {
        state = mix64(state);
        actions.push(((state % 6) as u8, (state >> 24) as u8));
    }
    actions
}

#[test]
fn unregister_and_recover_one_worker_never_changes_its_siblings() {
    let mut dispatcher = Dispatcher::new(false);
    for id in 0..9 {
        dispatcher.register(channels(id, 1));
    }
    for cycle in 0..10_000 {
        let id = cycle % 9;
        dispatcher.unregister(id, id as u64 + 1);
        assert_eq!(dispatcher.active_count(), 8);
        for sibling in 0..9 {
            assert_eq!(dispatcher.worker(sibling).is_some(), sibling != id);
        }
        dispatcher.register(channels(id, 1));
        assert_eq!(dispatcher.active_count(), 9);
    }
}

#[test]
fn stale_registration_drop_cannot_unregister_replacement() {
    let mut dispatcher = Dispatcher::new(false);
    let mut old = channels(4, 1);
    old.incarnation_id = 40;
    dispatcher.register(old);
    let mut replacement = channels(4, 1);
    replacement.incarnation_id = 41;
    dispatcher.register(replacement);

    dispatcher.unregister(4, 40);

    assert_eq!(dispatcher.active_count(), 1);
    assert_eq!(dispatcher.worker(4).unwrap().incarnation_id, 41);
}

#[test]
fn overload_keeps_queues_and_packet_memory_strictly_bounded() {
    let mut dispatcher = Dispatcher::new(false);
    for id in 0..9 {
        dispatcher.register(channels(id, 1));
    }
    for sequence in 0..100_000usize {
        let packet = vec![0u8; if sequence % 2 == 0 { 100 } else { 1_000 }];
        let class = if sequence % 2 == 0 {
            PacketClass::Latency
        } else {
            PacketClass::Bulk
        };
        let order: Vec<usize> = (0..9).map(|step| (sequence + step) % 9).collect();
        dispatcher.dispatch(class, &order, packet);
    }
    let mut queued = 0;
    for worker in &dispatcher.workers {
        queued += worker.latency.len() + worker.priority.len() + worker.bulk.len();
    }
    assert!(queued <= 18);
    assert!(queued > 0);
    for worker in &mut dispatcher.workers {
        while worker.latency.try_recv().is_some() {}
        while worker.priority.try_recv().is_some() {}
        while worker.bulk.try_recv().is_some() {}
        assert_eq!(worker.latency.len() + worker.priority.len() + worker.bulk.len(), 0);
    }
}

#[test]
fn saturated_queue_replaces_oldest_with_newest() {
    let mut queue = packet_channel(2, true);
    for value in 1..=3 {
        assert!(queue.force_send(vec![value]).is_ok());
    }
    assert_eq!(queue.try_recv().unwrap(), [2]);
    assert_eq!(queue.try_recv().unwrap(), [3]);
    assert!(queue.try_recv().is_none());
}

#[test]
fn queued_packets_remain_available_until_the_queue_is_purged() {
    let mut queue = packet_channel(2, true);
    assert!(queue.force_send(Vec::new()).is_ok());
    assert!(queue.try_recv().is_some());
    assert_eq!(queue.len(), 0);
}

#[test]
fn suspend_and_resume_purge_previous_network_epoch() {
    let mut queue = packet_channel(3, true);
    assert!(queue.force_send(Vec::new()).is_ok());
    queue.suspend();
    assert_eq!(queue.len(), 0);
    assert!(queue.force_send(Vec::new()).is_err());
    queue.resume();
    assert!(queue.force_send(Vec::new()).is_ok());
    assert!(queue.try_recv().is_some());
    assert!(queue.try_recv().is_none());
}

#[test]
fn packet_queue_matches_bounded_reference_model() {
    for seed in 0..64 {
        let actions = deterministic_queue_actions(seed, 2_000);
        assert!(queue_trace_matches(&actions, true));
    }
}

#[test]
fn queue_oracle_detects_keep_oldest_mutation() {
    let actions = [
        (1, 1),
        (1, 2),
        (1, 3),
        (1, 4),
        (1, 5),
        (1, 6),
        (1, 7),
        (1, 8),
        (2, 0),
    ];
    assert!(queue_trace_matches(&actions, true));
    assert!(!queue_trace_matches(&actions, false));
}

#[test]
fn deterministic_queue_fault_generator_is_reproducible_and_complete() {
    let first = deterministic_queue_actions(0x1234_5678_9abc_def0, 4_096);
    let second = deterministic_queue_actions(0x1234_5678_9abc_def0, 4_096);
    let different = deterministic_queue_actions(0x1234_5678_9abc_def1, 4_096);
    assert_eq!(first, second);
    assert_ne!(first, different);
    let mut covered = [false; 6];
    for &(operation, _) in &first {
        covered[usize::from(operation % 6)] = true;
    }
    assert!(covered.into_iter().all(|value| value));
    let (matches, coverage) = queue_trace_outcome(&first, true);
    assert!(matches);
    assert!(coverage.complete());
}

#[test]
fn queue_coverage_oracle_rejects_each_missing_state_transition() {
    let complete = QueueCoverage {
        full_rejection: 1,
        forced_replacement: 1,
        inactive_rejection: 1,
        suspended: 1,
        resumed: 1,
        purged: 1,
    };
    assert!(complete.complete());
    for index in 0..6 {
        let mut mutated = complete;
        match index {
            0 => mutated.full_rejection = 0,
            1 => mutated.forced_replacement = 0,
            2 => mutated.inactive_rejection = 0,
            3 => mutated.suspended = 0,
            4 => mutated.resumed = 0,
            _ => mutated.purged = 0,
        }
        assert!(!mutated.complete());
    }
}

fn tcp_packet(source_port: u16, sequence: u32) -> Vec<u8> {
    tcp_packet_len(source_port, sequence, 1_200)
}

fn tcp_packet_len(source_port: u16, sequence: u32, len: usize) -> Vec<u8> {
    assert!(len >= 40);
    let mut bytes = vec![0u8; len];
    bytes[0] = 0x45;
    bytes[2..4].copy_from_slice(&(len as u16).to_be_bytes());
    bytes[8] = 64;
    bytes[9] = 6;
    bytes[12..16].copy_from_slice(&[10, 66, 67, 2]);
    bytes[16..20].copy_from_slice(&[1, 1, 1, 1]);
    bytes[20..22].copy_from_slice(&source_port.to_be_bytes());
    bytes[22..24].copy_from_slice(&443u16.to_be_bytes());
    bytes[24..28].copy_from_slice(&sequence.to_be_bytes());
    bytes[32] = 5 << 4;
    bytes[33] = 0x18;
    bytes
}

fn packet_sequence(packet: &[u8]) -> u32 {
    u32::from_be_bytes(packet[24..28].try_into().unwrap())
}

#[test]
fn direct_downlink_preserves_late_tcp_retransmit() {
    let mut dispatcher = Dispatcher::new(false);
    for sequence in [0, 2_320] {
        let action = dispatcher.return_packet(tcp_packet(50_000, sequence), PacketClass::Bulk);
        assert!(matches!(action, ReturnAction::Queued));
    }
    assert_eq!(packet_sequence(&dispatcher.return_bulk.try_recv().unwrap()), 0);
    assert_eq!(
        packet_sequence(&dispatcher.return_bulk.try_recv().unwrap()),
        2_320
    );
    dispatcher.return_packet(tcp_packet(50_000, 1_160), PacketClass::Bulk);
    assert_eq!(
        packet_sequence(&dispatcher.return_bulk.try_recv().unwrap()),
        1_160
    );
    assert!(dispatcher.return_bulk.try_recv().is_none());
}

#[test]
fn direct_downlink_splits_latency_and_bulk_returns() {
    let mut dispatcher = Dispatcher::new(false);
    dispatcher.return_packet(tcp_packet_len(50_000, 7, 96), PacketClass::Latency);
    dispatcher.return_packet(tcp_packet(50_000, 8), PacketClass::Bulk);
    assert_eq!(
        packet_sequence(&dispatcher.return_latency.try_recv().unwrap()),
        7
    );
    assert_eq!(packet_sequence(&dispatcher.return_bulk.try_recv().unwrap()), 8);
}

#[test]
fn return_queues_share_the_return_capacity() {
    assert_eq!(
        RETURN_LATENCY_CAPACITY + RETURN_PRIORITY_CAPACITY + RETURN_BULK_CAPACITY,
        RETURN_CAPACITY
    );
    let mut dispatcher = Dispatcher::new(false);
    for value in 0..600u16 {
        dispatcher.return_packet(value.to_be_bytes().to_vec(), PacketClass::Bulk);
    }
    assert_eq!(dispatcher.return_bulk.len(), RETURN_BULK_CAPACITY);
    assert_eq!(
        dispatcher.return_bulk.try_recv().unwrap(),
        88u16.to_be_bytes()
    );
}

#[test]
fn latency_returns_overtake_the_others() {
    let mut dispatcher = Dispatcher::new(false);
    dispatcher.return_packet(vec![3], PacketClass::Bulk);
    dispatcher.return_packet(vec![2], PacketClass::Priority);
    dispatcher.return_packet(vec![1], PacketClass::Latency);
    assert_eq!(dispatcher.next_return_packet().unwrap(), [1]);
    assert_eq!(dispatcher.next_return_packet().unwrap(), [2]);
    assert_eq!(dispatcher.next_return_packet().unwrap(), [3]);
    assert!(dispatcher.next_return_packet().is_none());
}

#[test]
fn tun_mode_starts_suspended_and_resumes() {
    let mut dispatcher = Dispatcher::new(true);
    assert!(matches!(
        dispatcher.return_packet(vec![1], PacketClass::Bulk),
        ReturnAction::Refused
    ));
    dispatcher.resume_returns();
    assert!(matches!(
        dispatcher.return_packet(vec![1], PacketClass::Bulk),
        ReturnAction::Queued
    ));
    dispatcher.suspend_returns();
    assert!(dispatcher.next_return_packet().is_none());
}

#[test]
fn proxy_frames_need_a_registered_receiver() {
    let frame = encode_frame(OPEN, 9, b"x");
    let mut dispatcher = Dispatcher::new(false);
    assert!(matches!(
        dispatcher.return_packet(frame.clone(), PacketClass::Bulk),
        ReturnAction::Ignored
    ));
    assert!(dispatcher.set_proxy_frame_sender().is_ok());
    assert!(dispatcher.set_proxy_frame_sender().is_err());
    match dispatcher.return_packet(frame.clone(), PacketClass::Bulk) {
        ReturnAction::Frame(taken) => assert_eq!(taken, frame),
        _ => panic!("frame expected"),
    }
    dispatcher.frame_delivered(true);
    assert!(!dispatcher.cancelled);
    dispatcher.frame_delivered(false);
    assert!(dispatcher.cancelled);
}

#[test]
fn a_stream_stays_with_its_carrier() {
    let mut dispatcher = Dispatcher::new(false);
    let open = encode_frame(OPEN, 5, b"");
    let data = encode_frame(DATA, 5, b"abc");
    let close = encode_frame(CLOSE, 5, b"");
    assert_eq!(
        dispatcher.send_proxy_frame(b"no frame", true),
        Err(ProxySendError::InvalidFrame)
    );
    assert_eq!(
        dispatcher.send_proxy_frame(&open, true),
        Err(ProxySendError::TransportNotReady)
    );
    dispatcher.register(channels(0, 4));
    assert_eq!(
        dispatcher.send_proxy_frame(&data, true),
        Err(ProxySendError::CarrierUnavailable)
    );
    assert_eq!(
        dispatcher.send_proxy_frame(&open, false),
        Err(ProxySendError::PoolExhausted)
    );
    assert_eq!(dispatcher.send_proxy_frame(&open, true), Ok(()));
    assert_eq!(dispatcher.send_proxy_frame(&data, true), Ok(()));
    assert_eq!(dispatcher.proxy_routes.get(5), Some((0, 1)));
    assert_eq!(dispatcher.send_proxy_frame(&close, true), Ok(()));
    assert_eq!(dispatcher.proxy_routes.get(5), None);
}

#[test]
fn a_full_carrier_refuses_frames_instead_of_dropping_earlier_ones() {
    let mut dispatcher = Dispatcher::new(false);
    dispatcher.register(channels(0, 1));
    let open = encode_frame(OPEN, 1, b"");
    let data = encode_frame(DATA, 1, b"z");
    assert_eq!(dispatcher.send_proxy_frame(&open, true), Ok(()));
    assert_eq!(
        dispatcher.send_proxy_frame(&data, true),
        Err(ProxySendError::QueueUnavailable)
    );
}

#[test]
fn routes_forget_a_carrier() {
    let mut routes = ProxyRoutes::new();
    routes.insert(1, 7, 70);
    routes.insert(2, 7, 70);
    routes.insert(3, 8, 80);
    routes.insert(2, 8, 80);
    routes.remove_carrier(7, 70);
    assert_eq!(routes.get(1), None);
    assert_eq!(routes.get(2), Some((8, 80)));
    routes.remove(3);
    assert_eq!(routes.get(3), None);
}

#[test]
fn a_batch_takes_priority_before_bulk() {
    let mut dispatcher = Dispatcher::new(false);
    dispatcher.return_packet(vec![10], PacketClass::Priority);
    dispatcher.return_packet(vec![11], PacketClass::Priority);
    dispatcher.return_packet(vec![20], PacketClass::Bulk);
    assert_eq!(
        dispatcher.fill_send_batch(vec![1], PacketClass::Latency, 8, 8),
        [[1]]
    );
    assert_eq!(
        dispatcher.fill_send_batch(vec![2], PacketClass::Bulk, 8, 8),
        [[2]]
    );
    assert_eq!(
        dispatcher.fill_send_batch(vec![3], PacketClass::Priority, 8, 8),
        [[3], [10], [11]]
    );
    assert_eq!(
        dispatcher.fill_send_batch(vec![4], PacketClass::Bulk, 8, 8),
        [[4], [20]]
    );
}

#[test]
fn queue_reports_closing() {
    let mut queue = packet_channel(2, true);
    assert!(queue.has_room());
    queue.add_sender();
    assert!(!queue.drop_sender());
    assert!(matches!(queue.poll_recv(), RecvPoll::Pending));
    queue.try_send(vec![4]).unwrap();
    assert!(queue.has_queued_packet());
    assert!(queue.drop_sender());
    assert!(!queue.is_closed());
    match queue.poll_recv() {
        RecvPoll::Packet(packet) => assert_eq!(packet, [4]),
        _ => panic!("packet expected"),
    }
    assert!(queue.is_closed());
    assert!(matches!(queue.poll_recv(), RecvPoll::Closed));
    queue.close_receiver();
    assert_eq!(queue.try_send(vec![5]), Err(vec![5]));
}

#[test]
fn a_packet_stamped_before_a_change_is_never_delivered() {
    let mut queue = packet_channel(2, true);
    let stamp = queue.stamp().unwrap();
    queue.suspend();
    queue.resume();
    queue.push_stamped(vec![1], stamp).unwrap();
    queue.force_push_stamped(vec![2], stamp);
    queue.force_send(vec![3]).unwrap();
    assert_eq!(queue.try_recv(), Some(vec![3]));
    assert_eq!(queue.try_recv(), None);
}

#[test]
fn a_queue_without_room_holds_one() {
    let mut queue = packet_channel(0, true);
    assert!(queue.try_send(vec![1]).is_ok());
    assert_eq!(queue.try_send(vec![2]), Err(vec![2]));
}

#[test]
fn paths_alternate_by_rank_and_name() {
    let mut workers = Vec::new();
    for (id, path) in [(9, "b"), (4, "b"), (7, "a")] {
        let mut worker = channels(id, 1);
        worker.turn_path = path.to_owned();
        workers.push(worker);
    }
    let order: Vec<usize> = interleave_turn_paths(workers)
        .iter()
        .map(|worker| worker.id)
        .collect();
    assert_eq!(order, [7, 4, 9]);
}

#[test]
fn shutdown_cancels() {
    let mut dispatcher = Dispatcher::new(false);
    dispatcher.shutdown();
    assert!(dispatcher.cancelled);
}
