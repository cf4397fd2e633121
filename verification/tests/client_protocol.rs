use csqtt::client::protocol::{
    config_request, disconnect_request, is_config_response, is_control_response,
    is_panel_restart_notice, panel_restart_notice_bytes, parse_config_response,
    parse_stream_alive, parse_stream_repair, stream_alive_prefix_bytes,
    stream_repair_prefix_bytes, ConfigError, ConfigResponse, DenyReason, StreamRepairCommand,
};

#[test]
fn protocol_mismatch_explains_server_pairing_and_stops_retries() {
    let error = parse_config_response(b"DENIED:protocol_mismatch").unwrap_err();
    let message = error.message();
    assert!(error.is_fatal());
    assert!(message.contains("FATAL_AUTH"));
    assert!(message.contains("danusha2345/csqtt-android"));
    assert!(message.contains("несовместимый протокол"));
}

#[test]
fn request_matches_go_contract() {
    assert_eq!(
        config_request("9000", "device", "password", 7, "salt", 4, 36),
        "GETCONF:9000|device|password|7|salt|4|36"
    );
}

#[test]
fn response_matches_go_contract() {
    assert_eq!(
        parse_config_response(b"TUNCONF:10.66.66.2:1.1.1.1").unwrap(),
        ConfigResponse::Config("TUNCONF:10.66.66.2:1.1.1.1".into())
    );
    assert!(parse_config_response(b"DENIED:wrong_password")
        .unwrap_err()
        .message()
        .contains("FATAL_AUTH"));
}

#[test]
fn control_responses_never_enter_tun() {
    let notice = panel_restart_notice_bytes();
    let repair = stream_repair_prefix_bytes();
    let alive = stream_alive_prefix_bytes();
    for value in [
        b"TUNCONF:10.66.67.3:1.1.1.1".as_slice(),
        b"NOCONF".as_slice(),
        b"DENIED:expired".as_slice(),
        b"READY_OK".as_slice(),
        b"OK:disconnected".as_slice(),
        notice.as_slice(),
        repair.as_slice(),
        alive.as_slice(),
    ] {
        assert!(is_control_response(value));
    }
    assert!(!is_control_response(b"CSQPX1\x02\0\0\0\0\0\0\0\x01"));
    assert!(!is_control_response(&[0x45, 0, 0, 20]));
}

#[test]
fn panel_restart_notice_requires_an_exact_match() {
    let notice = panel_restart_notice_bytes();
    assert!(is_panel_restart_notice(&notice));
    assert!(!is_panel_restart_notice(b"CSQTT_PANEL_RESTART_V1"));
    let mut modified = notice.clone();
    modified[1] ^= 1;
    assert!(!is_panel_restart_notice(&modified));
}

#[test]
fn config_wait_ignores_tunneled_packets_and_other_controls() {
    assert!(is_config_response(b"TUNCONF:10.66.67.3:1.1.1.1"));
    assert!(is_config_response(b"NOCONF"));
    assert!(is_config_response(b"DENIED:expired"));
    assert!(!is_config_response(b"READY_OK"));
    assert!(!is_config_response(&[0x45, 0, 0, 20]));
    assert!(!is_config_response(&[0xff, 0xfe]));
}

fn command(prefix: Vec<u8>, sequence: u64, desired: u16, ids: &[u16]) -> Vec<u8> {
    let mut payload = prefix;
    payload.extend_from_slice(&sequence.to_be_bytes());
    payload.extend_from_slice(&desired.to_be_bytes());
    payload.push(ids.len() as u8);
    for id in ids {
        payload.extend_from_slice(&id.to_be_bytes());
    }
    payload
}

#[test]
fn parses_stream_repair_command() {
    let prefix = stream_repair_prefix_bytes();
    let mut payload = command(prefix.clone(), 9, 36, &[14, 28]);
    assert_eq!(
        parse_stream_repair(&payload),
        Some(StreamRepairCommand {
            sequence: 9,
            desired_count: 36,
            worker_ids: vec![14, 28],
        })
    );
    assert!(parse_stream_alive(&payload).is_none());
    payload[prefix.len() + 10] = 0;
    assert!(parse_stream_repair(&payload).is_none());
}

#[test]
fn malformed_utf8_returns_error() {
    assert!(parse_config_response(&[0xff, 0xfe]).is_err());
}

#[test]
fn no_config_response_is_preserved() {
    assert_eq!(
        parse_config_response(b"NOCONF").unwrap(),
        ConfigResponse::NoConfig
    );
}

#[test]
fn every_denied_reason_is_fatal() {
    for response in [
        b"DENIED:wrong_password".as_slice(),
        b"DENIED:expired".as_slice(),
        b"DENIED:device_mismatch".as_slice(),
        b"DENIED:unknown".as_slice(),
    ] {
        let error = parse_config_response(response).unwrap_err();
        assert!(error.is_fatal());
        assert!(error.message().contains("FATAL_AUTH"));
    }
}

#[test]
fn answers_that_are_no_configuration_have_a_reason() {
    assert!(matches!(
        parse_config_response(&[0xff]),
        Err(ConfigError::InvalidUtf8)
    ));
    let error = parse_config_response("привет".as_bytes()).unwrap_err();
    assert!(matches!(error, ConfigError::Unexpected));
    assert!(!error.is_fatal());
    assert_eq!(error.message(), "unexpected GETCONF response");
    assert!(matches!(
        parse_config_response(b"DENIED:expired"),
        Err(ConfigError::Denied(DenyReason::Expired))
    ));
    assert!(matches!(
        parse_config_response(b"DENIED:device_mismatch"),
        Err(ConfigError::Denied(DenyReason::DeviceMismatch))
    ));
    match parse_config_response("DENIED:иное".as_bytes()) {
        Err(ConfigError::Denied(DenyReason::Other(code))) => assert_eq!(code, "иное"),
        _ => panic!("another reason expected"),
    }
}

#[test]
fn stream_commands_have_bounds() {
    let alive = stream_alive_prefix_bytes();
    assert_eq!(
        parse_stream_alive(&command(alive.clone(), 1, 126, &[126])),
        Some(StreamRepairCommand {
            sequence: 1,
            desired_count: 126,
            worker_ids: vec![126],
        })
    );
    assert!(parse_stream_alive(&command(alive.clone(), 0, 9, &[1])).is_none());
    assert!(parse_stream_alive(&command(alive.clone(), 1, 0, &[1])).is_none());
    assert!(parse_stream_alive(&command(alive.clone(), 1, 127, &[1])).is_none());
    assert!(parse_stream_alive(&command(alive.clone(), 1, 9, &[10])).is_none());
    assert!(parse_stream_alive(&command(alive.clone(), 1, 9, &[0])).is_none());
    assert!(parse_stream_alive(&command(alive.clone(), 1, 9, &[])).is_none());
    assert!(parse_stream_alive(&alive).is_none());
}

#[test]
fn disconnect_names_the_device() {
    assert_eq!(disconnect_request("dev", "s"), "DISCONNECT:dev|s");
}
