use csqtt::addr::{Endpoint, IpAddress, Ipv4};
use csqtt::client::settings::{worker_plan, ArgumentError, WorkerPlan};
use csqtt::client::udp_io::{
    bind_step, next_send_limit, note_client, udp_read_step, BatchSend, BindStep, SendEvent,
    SendStep, UdpReadEvent, UdpReadStep, LOCAL_SOCKET_BUFFER,
};
use csqtt::packet::{extract_dst_ipv4, PacketClass};

#[test]
fn full_batches_adapt_the_next_one() {
    let received = |room, count| UdpReadEvent::Received { room, count };
    assert_eq!(
        udp_read_step(8, received(8, 8), 16),
        (UdpReadStep::Dispatch(8), 16)
    );
    assert_eq!(
        udp_read_step(8, received(3, 3), 16),
        (UdpReadStep::Dispatch(3), 8)
    );
    assert_eq!(
        udp_read_step(8, UdpReadEvent::WouldBlock, 4),
        (UdpReadStep::Wait, 4)
    );
    assert_eq!(
        udp_read_step(8, UdpReadEvent::NoBuffers, 4),
        (UdpReadStep::Pause(1), 8)
    );
    for event in [UdpReadEvent::WaitFailed, UdpReadEvent::Failed] {
        assert_eq!(udp_read_step(8, event, 4), (UdpReadStep::Pause(10), 8));
    }
    assert_eq!(next_send_limit(PacketClass::Bulk, 32, 4), 32);
    assert_eq!(next_send_limit(PacketClass::Priority, 32, 4), 4);
}

#[test]
fn replies_go_to_the_last_sender() {
    let from = |port| Endpoint {
        ip: IpAddress::V4(Ipv4::new([127, 0, 0, 1])),
        port,
    };
    let mut client = None;
    assert!(note_client(&mut client, from(1)));
    assert!(!note_client(&mut client, from(1)));
    assert!(note_client(&mut client, from(2)));
    assert_eq!(client, Some(from(2)));
}

#[test]
fn a_batch_goes_out_in_parts() {
    let mut batch = BatchSend {
        sizes: vec![100, 20, 3],
        sent: 0,
    };
    assert_eq!(batch.step(SendEvent::Sent(0)), (SendStep::Yield, 0));
    assert_eq!(batch.step(SendEvent::Sent(2)), (SendStep::Continue, 120));
    assert_eq!(batch.step(SendEvent::WouldBlock), (SendStep::Continue, 0));
    assert_eq!(batch.step(SendEvent::Sent(1)), (SendStep::Done, 3));
    assert_eq!(batch.step(SendEvent::Failed), (SendStep::Abandon, 0));
}

#[test]
fn workers_are_planned_for_hashes() {
    assert_eq!(
        worker_plan(1_000, 2, false),
        Ok(WorkerPlan {
            hashes: 2,
            workers: 54,
            groups: 6
        })
    );
    assert_eq!(
        worker_plan(1_000, 9, false),
        Ok(WorkerPlan {
            hashes: 6,
            workers: 126,
            groups: 14
        })
    );
    assert_eq!(worker_plan(9, 0, true), Err(ArgumentError::NoHashes));
}

#[test]
fn packets_name_their_destination() {
    let mut packet = vec![0x45; 20];
    packet[16..20].copy_from_slice(&[1, 2, 3, 4]);
    assert_eq!(extract_dst_ipv4(&packet), Some([1, 2, 3, 4]));
    packet[0] = 0x60;
    assert_eq!(extract_dst_ipv4(&packet), None);
}

#[test]
fn the_wanted_port_is_tried_five_times() {
    for attempt in 1..5 {
        assert_eq!(bind_step(attempt, false), BindStep::Again(1_000));
        assert_eq!(bind_step(attempt, true), BindStep::Use);
    }
    assert_eq!(bind_step(5, false), BindStep::AnyPort);
    assert_eq!(bind_step(5, true), BindStep::Use);
    assert_eq!(LOCAL_SOCKET_BUFFER, 640_000);
}
