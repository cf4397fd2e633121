use csqtt::addr::{Ipv4, Ipv6, IpAddress};
use csqtt::client::dispatcher::{Dispatcher, ProxySendError, ReturnAction};
use csqtt::client::packet_queue::packet_channel;
use csqtt::client::stream_proxy::{
    bind_allowed, encode_frame, forward_step, frame_route, inbound_event, is_frame, open_reply,
    parse_frame, read_handshake, relay_step, reply_bytes, ForwardStep, HandshakeError,
    HandshakeState, Inbound, InboundStreams, OpenReply, RelayStep,
};
use csqtt::client::workers::WorkerChannels;
use csqtt::frame::{CLOSE, DATA, MAX_DATA, OPEN, OPEN_ERR, OPEN_OK};
use csqtt::packet::PacketClass;

#[test]
fn proxy_frame_round_trip_is_strict() {
    let encoded = encode_frame(DATA, 42, b"payload");
    let frame = parse_frame(&encoded).unwrap();
    assert_eq!(frame.kind, DATA);
    assert_eq!(frame.stream_id, 42);
    assert_eq!(frame.payload, b"payload");
    assert!(!is_frame(b"ordinary IP packet"));
}

#[test]
fn inbound_overflow_closes_only_the_affected_stream() {
    let mut streams = InboundStreams::new();
    streams.insert(1);
    streams.insert(2);
    assert!(streams.deliver_inbound(1, true));
    assert!(!streams.deliver_inbound(1, false));
    assert!(!streams.deliver_inbound(1, true));
    assert!(streams.contains(2));
    assert!(!streams.contains(1));
}

#[test]
fn proxy_queue_overflow_never_evicts_earlier_bytes() {
    let mut dispatcher = Dispatcher::new(false);
    dispatcher.register(WorkerChannels {
        id: 1,
        incarnation_id: 1,
        turn_path: "test".to_owned(),
        latency: packet_channel(1, true),
        priority: packet_channel(1, true),
        bulk: packet_channel(1, true),
    });
    dispatcher
        .send_proxy_frame(&encode_frame(OPEN, 1, b"target"), true)
        .unwrap();
    assert!(dispatcher
        .send_proxy_frame(&encode_frame(DATA, 1, b"later bytes"), true)
        .is_err());
    let first = dispatcher.workers[0].priority.try_recv().unwrap();
    assert_eq!(parse_frame(&first).unwrap().kind, OPEN);
    assert_eq!(
        dispatcher.send_proxy_frame(&encode_frame(DATA, 1, b"must stay closed"), true),
        Err(ProxySendError::CarrierUnavailable)
    );

    let mut dispatcher = Dispatcher::new(false);
    dispatcher.set_proxy_frame_sender().unwrap();
    let mut queued = Vec::new();
    for _ in 0..2 {
        let bytes = encode_frame(DATA, 1, b"response");
        match dispatcher.return_packet(bytes, PacketClass::Bulk) {
            ReturnAction::Frame(frame) => {
                let taken = queued.is_empty();
                if taken {
                    queued.push(frame);
                }
                dispatcher.frame_delivered(taken);
            }
            _ => panic!("frame expected"),
        }
    }
    assert!(dispatcher.cancelled);
}

fn carrier(id: usize, incarnation_id: u64) -> WorkerChannels {
    WorkerChannels {
        id,
        incarnation_id,
        turn_path: "test".to_owned(),
        latency: packet_channel(8, true),
        priority: packet_channel(16, true),
        bulk: packet_channel(8, true),
    }
}

fn next_priority(dispatcher: &mut Dispatcher, id: usize) -> Option<Vec<u8>> {
    dispatcher
        .workers
        .iter_mut()
        .find(|worker| worker.id == id)
        .unwrap()
        .priority
        .try_recv()
}

fn returned(dispatcher: &mut Dispatcher, frame: Vec<u8>) -> Option<Inbound> {
    match dispatcher.return_packet(frame, PacketClass::Bulk) {
        ReturnAction::Frame(frame) => {
            dispatcher.frame_delivered(true);
            inbound_event(parse_frame(&frame).unwrap())
        }
        _ => panic!("frame expected"),
    }
}

fn in_place(place: u64, data: &[u8]) -> Vec<u8> {
    let mut bytes = place.to_be_bytes().to_vec();
    bytes.extend_from_slice(data);
    bytes
}

#[test]
fn local_socks5_connect_and_data_use_csqtt_frames() {
    let mut dispatcher = Dispatcher::new(false);
    dispatcher.register(carrier(1, 1));
    dispatcher.set_proxy_frame_sender().unwrap();
    let mut streams = InboundStreams::new();
    let stream_id = streams.next_id();
    streams.insert(stream_id);

    let mut input = vec![5, 1, 0];
    assert_eq!(read_handshake(&input).replies, [5, 0]);
    input.extend_from_slice(&[5, 1, 0, 3, 11]);
    input.extend_from_slice(b"example.com");
    input.extend_from_slice(&443u16.to_be_bytes());
    let target = match read_handshake(&input).state {
        HandshakeState::Target(target) => target,
        _ => panic!("target expected"),
    };
    dispatcher
        .send_proxy_frame(&encode_frame(OPEN, stream_id, &target), true)
        .unwrap();
    let open_packet = next_priority(&mut dispatcher, 1).unwrap();
    let open = parse_frame(&open_packet).unwrap();
    assert_eq!(open.kind, OPEN);
    assert_eq!(open.stream_id, stream_id);
    assert_eq!(open.payload[0], 3);
    assert_eq!(open.payload, b"\x03\x0bexample.com\x01\xbb");

    dispatcher.register(carrier(0, 2));
    let opened = encode_frame(OPEN_OK, stream_id, &[]);
    let reply = open_reply(returned(&mut dispatcher, opened));
    assert_eq!(
        reply,
        OpenReply {
            code: 0,
            proceed: true
        }
    );
    assert_eq!(reply_bytes(reply.code)[1], 0);
    assert_eq!(reply_bytes(reply.code), [5, 0, 0, 1, 0, 0, 0, 0, 0, 0]);

    match forward_step(stream_id, Some(5), Some(in_place(0, b"hello"))) {
        ForwardStep::Send(frame) => dispatcher.send_proxy_frame(&frame, true).unwrap(),
        ForwardStep::Stop => panic!("frame expected"),
    }
    let data_packet = next_priority(&mut dispatcher, 1).unwrap();
    let data = parse_frame(&data_packet).unwrap();
    assert_eq!(data.kind, DATA);
    assert_eq!(data.stream_id, stream_id);
    assert_eq!(&data.payload[8..], b"hello");
    assert!(next_priority(&mut dispatcher, 0).is_none());

    let response = encode_frame(DATA, stream_id, &in_place(0, b"world"));
    match returned(&mut dispatcher, response) {
        Some(Inbound::Data(bytes)) => {
            assert_eq!(bytes, in_place(0, b"world"));
            let decoded = Some(bytes[8..].to_vec());
            match relay_step(Some(Inbound::Data(bytes)), decoded) {
                RelayStep::Write(body) => assert_eq!(body, b"world"),
                _ => panic!("data expected"),
            }
        }
        _ => panic!("data expected"),
    }
    assert!(!dispatcher.cancelled);
}

#[test]
fn bytes_out_of_place_end_a_stream() {
    let event = || Some(Inbound::Data(in_place(7, b"world")));
    assert!(matches!(relay_step(event(), None), RelayStep::Stop));
    match relay_step(event(), Some(b"world".to_vec())) {
        RelayStep::Write(body) => assert_eq!(body, b"world"),
        _ => panic!("data expected"),
    }
}

#[test]
fn bytes_of_the_local_client_go_out_until_it_closes() {
    match forward_step(3, Some(2), Some(in_place(1, b"ab"))) {
        ForwardStep::Send(frame) => assert_eq!(frame, encode_frame(DATA, 3, &in_place(1, b"ab"))),
        ForwardStep::Stop => panic!("frame expected"),
    }
    assert!(matches!(
        forward_step(3, Some(0), Some(Vec::new())),
        ForwardStep::Stop
    ));
    assert!(matches!(forward_step(3, Some(2), None), ForwardStep::Stop));
    assert!(matches!(
        forward_step(3, None, Some(in_place(1, b"ab"))),
        ForwardStep::Stop
    ));
}

#[test]
fn frames_have_a_kind_a_stream_and_a_limit() {
    let frame = encode_frame(CLOSE, 0x0102_0304_0506_0708, b"");
    assert_eq!(frame, b"CSQPX2\x05\x01\x02\x03\x04\x05\x06\x07\x08".to_vec());
    assert_eq!(frame_route(&frame), Some((CLOSE, 0x0102_0304_0506_0708)));
    assert_eq!(frame_route(b"CSQPX2"), None);
    let long = encode_frame(DATA, 1, &vec![0u8; MAX_DATA]);
    assert!(is_frame(&long));
}

#[test]
fn events_follow_the_kind_of_frame() {
    let event = |kind: u8, payload: &[u8]| {
        inbound_event(parse_frame(&encode_frame(kind, 3, payload)).unwrap())
    };
    assert!(matches!(event(OPEN_OK, b""), Some(Inbound::Opened)));
    assert!(matches!(event(OPEN_ERR, &[5]), Some(Inbound::Error(5))));
    assert!(matches!(event(OPEN_ERR, b""), Some(Inbound::Error(1))));
    assert!(matches!(event(CLOSE, b""), Some(Inbound::Closed)));
    assert!(event(OPEN, b"").is_none());
    assert_eq!(open_reply(event(OPEN_ERR, &[5])).code, 5);
    assert_eq!(open_reply(None).code, 4);
    assert!(matches!(
        relay_step(Some(Inbound::Opened), None),
        RelayStep::Ignore
    ));
    assert!(matches!(
        relay_step(Some(Inbound::Closed), None),
        RelayStep::Stop
    ));
    assert!(matches!(
        relay_step(Some(Inbound::Error(1)), None),
        RelayStep::Stop
    ));
    assert!(matches!(relay_step(None, None), RelayStep::Stop));
}

#[test]
fn stream_numbers_count_up() {
    let mut streams = InboundStreams::new();
    let first = streams.next_id();
    let second = streams.next_id();
    assert_eq!((first, second), (1, 2));
    streams.insert(first);
    streams.insert(first);
    assert_eq!(streams.len(), 1);
    assert!(streams.can_accept());
    streams.remove(first);
    assert_eq!(streams.len(), 0);
}

#[test]
fn a_handshake_is_read_step_by_step() {
    assert!(matches!(
        read_handshake(&[]).state,
        HandshakeState::Need(2)
    ));
    assert!(matches!(
        read_handshake(&[5, 3, 1]).state,
        HandshakeState::Need(2)
    ));
    assert!(matches!(
        read_handshake(&[4, 1]).state,
        HandshakeState::Failed(HandshakeError::InvalidGreeting)
    ));
    let refused = read_handshake(&[5, 1, 2]);
    assert_eq!(refused.replies, [5, 0xff]);
    assert!(matches!(
        refused.state,
        HandshakeState::Failed(HandshakeError::AuthRequired)
    ));
    let bind = read_handshake(&[5, 1, 0, 5, 2, 0, 1]);
    assert_eq!(bind.replies, [5, 0, 5, 7, 0, 1, 0, 0, 0, 0, 0, 0]);
    assert!(matches!(
        bind.state,
        HandshakeState::Failed(HandshakeError::NotConnect)
    ));
    assert!(matches!(
        read_handshake(&[5, 1, 0, 5, 1, 0, 3, 0]).state,
        HandshakeState::Failed(HandshakeError::EmptyDomain)
    ));
    assert!(matches!(
        read_handshake(&[5, 1, 0, 5, 1, 0, 3, 2]).state,
        HandshakeState::Need(4)
    ));
    assert!(matches!(
        read_handshake(&[5, 1, 0, 5, 1, 0, 9]).state,
        HandshakeState::Failed(HandshakeError::UnsupportedAddress)
    ));
    match read_handshake(b"\x05\x01\x00\x05\x01\x00\x03\x02ab\x01\xbb").state {
        HandshakeState::Target(target) => assert_eq!(target, b"\x03\x02ab\x01\xbb"),
        _ => panic!("target expected"),
    }
}

#[test]
fn replies_only_grow_while_a_handshake_goes_on() {
    let input = b"\x05\x01\x00\x05\x01\x00\x01\x01\x02\x03\x04\x00\x50rest";
    for shorter in 0..13 {
        let before = read_handshake(&input[..shorter]).replies;
        let after = read_handshake(&input[..shorter + 1]).replies;
        assert!(after.starts_with(&before));
    }
    match (
        read_handshake(&input[..13]).state,
        read_handshake(&input[..17]).state,
    ) {
        (HandshakeState::Target(a), HandshakeState::Target(b)) => assert_eq!(a, b),
        _ => panic!("targets expected"),
    }
}

#[test]
fn the_local_proxy_listens_on_loopback_only() {
    assert!(bind_allowed(IpAddress::V4(Ipv4::new([127, 0, 0, 1]))));
    assert!(bind_allowed(IpAddress::V4(Ipv4::new([127, 9, 9, 9]))));
    assert!(!bind_allowed(IpAddress::V4(Ipv4::new([0, 0, 0, 0]))));
    assert!(bind_allowed(IpAddress::V6(Ipv6 { hi: 0, lo: 1 })));
    assert!(!bind_allowed(IpAddress::V6(Ipv6 { hi: 0, lo: 2 })));
}

#[test]
fn failures_of_the_local_proxy_are_explained() {
    for (error, text) in [
        (ProxySendError::InvalidFrame, "invalid SOCKS5 frame"),
        (
            ProxySendError::TransportNotReady,
            "CSQTT transport is not ready",
        ),
        (
            ProxySendError::CarrierUnavailable,
            "SOCKS5 carrier is unavailable",
        ),
        (ProxySendError::CarrierReplaced, "SOCKS5 carrier was replaced"),
        (ProxySendError::PoolExhausted, "packet pool exhausted"),
        (
            ProxySendError::QueueUnavailable,
            "CSQTT transport queue is unavailable",
        ),
    ] {
        assert_eq!(error.message(), text);
    }
    for (error, text) in [
        (HandshakeError::InvalidGreeting, "invalid SOCKS5 greeting"),
        (
            HandshakeError::AuthRequired,
            "SOCKS5 client does not support no-auth mode",
        ),
        (
            HandshakeError::NotConnect,
            "only SOCKS5 CONNECT is supported",
        ),
        (HandshakeError::EmptyDomain, "empty SOCKS5 domain"),
        (
            HandshakeError::UnsupportedAddress,
            "unsupported SOCKS5 address type",
        ),
    ] {
        assert_eq!(error.message(), text);
    }
}
