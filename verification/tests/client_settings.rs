use clap::{Arg, ArgAction, Command};
use csqtt::client::settings::{
    bootstrap_payload, captcha_description, check_credentials_size, check_identity,
    check_transport, client_ids, config_step, control_command, control_end, credential_source,
    hook_path_allowed, normalize_cli_argument, normalize_worker_count,
    normalize_worker_count_for_hashes, peer_step, read_vk_js_bootstrap, required_js_ready_bots,
    runtime_worker_threads, should_leave_js_creator, stdin_credentials, ArgumentError,
    BootstrapError, ClientArguments, ConfigStep, ControlCommand, ControlEnd, CredentialSource,
    CredentialsError, PeerStep, ReadyCredentials, TunSource, GROUPS_PER_CREDENTIAL,
    MAX_CREDENTIALS_BYTES, MAX_WORKERS, WORKERS_PER_GROUP,
};

const MAX_ACCOUNT_CREDENTIALS: usize = 9;

fn no_arguments() -> ClientArguments {
    ClientArguments {
        vk: String::new(),
        vk_hash_mode: "manual".to_owned(),
        vk_auth_mode: "manual".to_owned(),
        peer: String::new(),
        password: String::new(),
        tun_uds: String::new(),
        tun_device: String::new(),
        tun_config_hook: String::new(),
        socks5: String::new(),
    }
}

fn parse(arguments: &[&str]) -> (ClientArguments, bool) {
    let text = |name: &'static str| {
        Arg::new(name)
            .long(name)
            .default_value("")
            .allow_hyphen_values(true)
    };
    let matches = Command::new("csqtt-client")
        .arg(text("vk"))
        .arg(text("vk-hash-mode"))
        .arg(text("peer"))
        .arg(text("password"))
        .arg(
            Arg::new("allow-hash-redistribution")
                .long("allow-hash-redistribution")
                .action(ArgAction::SetTrue),
        )
        .arg(
            Arg::new("credentials-stdin")
                .long("credentials-stdin")
                .action(ArgAction::SetTrue),
        )
        .try_get_matches_from(
            arguments
                .iter()
                .map(|argument| normalize_cli_argument((*argument).to_owned())),
        )
        .unwrap();
    let value = |name: &str| matches.get_one::<String>(name).cloned().unwrap_or_default();
    let mut parsed = no_arguments();
    parsed.vk = value("vk");
    parsed.vk_hash_mode = value("vk-hash-mode");
    parsed.peer = value("peer");
    parsed.password = value("password");
    (parsed, matches.get_flag("allow-hash-redistribution"))
}

fn apply_json(arguments: &mut ClientArguments, payload: &str) -> Result<(), CredentialsError> {
    let value: serde_json::Value = serde_json::from_str(payload).unwrap();
    let field = |name: &str| {
        value
            .get(name)
            .and_then(|field| field.as_str())
            .unwrap_or_default()
            .to_owned()
    };
    arguments.apply_credentials(field("password"), field("vk"))
}

fn apply_stdin_credentials(
    arguments: &mut ClientArguments,
    line: &str,
) -> Result<(), CredentialsError> {
    let payload = stdin_credentials(line)?;
    apply_json(arguments, &payload)
}

#[test]
fn every_supported_total_maps_to_complete_nine_allocation_groups() {
    for groups in 1..=MAX_WORKERS / WORKERS_PER_GROUP {
        let workers = groups * WORKERS_PER_GROUP;
        assert_eq!(normalize_worker_count(workers), workers);
        assert_eq!(workers / WORKERS_PER_GROUP, groups);
    }
    assert_eq!(normalize_worker_count(MAX_WORKERS), 126);
}

#[test]
fn invalid_totals_never_create_partial_or_excess_group() {
    for requested in 0..=1_000 {
        let workers = normalize_worker_count(requested);
        assert!((WORKERS_PER_GROUP..=MAX_WORKERS).contains(&workers));
        assert_eq!(workers % WORKERS_PER_GROUP, 0);
    }
}

#[test]
fn runtime_thread_budget_follows_stream_budget() {
    assert_eq!(runtime_worker_threads(9), 1);
    assert_eq!(runtime_worker_threads(18), 2);
    assert_eq!(runtime_worker_threads(27), 3);
    assert_eq!(runtime_worker_threads(36), 3);
    assert_eq!(runtime_worker_threads(45), 4);
    assert_eq!(runtime_worker_threads(54), 4);
    assert_eq!(runtime_worker_threads(126), 4);
}

#[test]
fn hash_count_caps_native_worker_admission_to_twenty_seven_each() {
    assert_eq!(normalize_worker_count_for_hashes(usize::MAX, 1, false), 27);
    assert_eq!(normalize_worker_count_for_hashes(usize::MAX, 4, false), 108);
    assert_eq!(normalize_worker_count_for_hashes(usize::MAX, 5, false), 126);
    assert_eq!(normalize_worker_count_for_hashes(usize::MAX, 6, false), 126);
    assert_eq!(
        normalize_worker_count_for_hashes(usize::MAX, 100, false),
        126
    );
}

#[test]
fn automatic_call_failure_may_redistribute_complete_groups() {
    assert_eq!(normalize_worker_count_for_hashes(162, 5, true), 126);
    assert_eq!(normalize_worker_count_for_hashes(54, 1, true), 54);
    assert_eq!(normalize_worker_count_for_hashes(50, 1, true), 45);
}

#[test]
fn auto_js_account_auth_supports_nine_credentials_in_one_call() {
    assert_eq!(normalize_worker_count_for_hashes(162, 1, true), 126);
    assert!(
        MAX_WORKERS.div_ceil(GROUPS_PER_CREDENTIAL * WORKERS_PER_GROUP) <= MAX_ACCOUNT_CREDENTIALS
    );
}

#[test]
fn auto_js_always_keeps_creator_while_running() {
    assert!(!should_leave_js_creator(true, false));
    assert!(!should_leave_js_creator(true, true));
    assert!(!should_leave_js_creator(false, false));
    assert!(!should_leave_js_creator(false, true));
}

#[test]
fn auto_js_waits_for_at_most_two_independent_turn_bots() {
    assert_eq!(required_js_ready_bots(1), 1);
    assert_eq!(required_js_ready_bots(2), 1);
    assert_eq!(required_js_ready_bots(3), 2);
    assert_eq!(required_js_ready_bots(13), 2);
}

#[test]
fn vk_hash_may_start_with_a_hyphen() {
    let (arguments, _) = parse(&[
        "csqtt-client",
        "--vk",
        "-Wabc",
        "--peer",
        "127.0.0.1:9000",
        "--password",
        "secret",
    ]);
    assert_eq!(arguments.vk, "-Wabc");
}

#[test]
fn android_single_dash_flags_do_not_rewrite_hyphenated_hash_values() {
    assert_eq!(normalize_cli_argument("-vk".to_owned()), "--vk");
    assert_eq!(normalize_cli_argument("-Wabc".to_owned()), "-Wabc");
    assert_eq!(
        normalize_cli_argument("-allow-hash-redistribution".to_owned()),
        "--allow-hash-redistribution"
    );
}

#[test]
fn hyphenated_hash_and_redistribution_flag_parse_together() {
    let (arguments, allow_hash_redistribution) = parse(&[
        "csqtt-client",
        "--vk",
        "-Wabc,-Wdef",
        "--peer",
        "127.0.0.1:9000",
        "--password",
        "secret",
        "--allow-hash-redistribution",
    ]);
    assert_eq!(arguments.vk, "-Wabc,-Wdef");
    assert!(allow_hash_redistribution);
}

#[test]
fn credentials_stdin_populates_secrets_without_argv() {
    let (mut arguments, _) = parse(&[
        "csqtt-client",
        "--peer",
        "127.0.0.1:9000",
        "--credentials-stdin",
    ]);
    apply_stdin_credentials(
        &mut arguments,
        r#"CSQTT_CREDENTIALS|{"password":"secret","vk":"hash-a,hash-b"}"#,
    )
    .unwrap();
    assert_eq!(arguments.password, "secret");
    assert_eq!(arguments.vk, "hash-a,hash-b");
}

#[test]
fn credentials_file_populates_secrets_without_argv() {
    let mut arguments = no_arguments();
    let content = r#"{"password":"secret","vk":"hash-a,hash-b"}"#;
    check_credentials_size(content).unwrap();
    apply_json(&mut arguments, content).unwrap();
    assert_eq!(arguments.password, "secret");
    assert_eq!(arguments.vk, "hash-a,hash-b");
}

#[test]
fn credentials_stdin_rejects_missing_secret() {
    let (mut arguments, _) = parse(&["csqtt-client"]);
    assert!(apply_stdin_credentials(
        &mut arguments,
        r#"CSQTT_CREDENTIALS|{"password":"","vk":"hash-a"}"#,
    )
    .is_err());
}

#[test]
fn credentials_stdin_allows_empty_vk_only_for_auto_js() {
    let (mut auto_js, _) = parse(&[
        "csqtt-client",
        "--vk-hash-mode",
        "auto_js",
        "--credentials-stdin",
    ]);
    apply_stdin_credentials(
        &mut auto_js,
        r#"CSQTT_CREDENTIALS|{"password":"secret","vk":""}"#,
    )
    .unwrap();

    let (mut manual, _) = parse(&["csqtt-client", "--credentials-stdin"]);
    assert!(apply_stdin_credentials(
        &mut manual,
        r#"CSQTT_CREDENTIALS|{"password":"secret","vk":""}"#,
    )
    .is_err());
}

#[test]
fn js_creator_waits_for_every_distinct_ready_credential() {
    let mut ready = ReadyCredentials::new(2);
    ready.report(1);
    ready.report(1);
    assert!(!ready.complete());
    ready.report(2);
    assert!(ready.complete());
}

#[test]
fn js_creator_wait_is_cancel_safe() {
    assert!(!ReadyCredentials::new(1).complete());
    assert!(ReadyCredentials::new(0).complete());
}

#[test]
fn credentials_have_a_prefix_and_a_size() {
    assert_eq!(
        stdin_credentials("CSQTT_CREDENTIALS|{}\r\n"),
        Ok("{}".to_owned())
    );
    assert_eq!(
        stdin_credentials("credentials|{}"),
        Err(CredentialsError::WrongPrefix)
    );
    let long = "x".repeat(MAX_CREDENTIALS_BYTES + 1);
    assert_eq!(stdin_credentials(&long), Err(CredentialsError::TooLarge));
    assert_eq!(
        check_credentials_size(&long),
        Err(CredentialsError::JsonTooLarge)
    );
    let mut arguments = no_arguments();
    assert_eq!(
        arguments.apply_credentials(String::new(), "hash".to_owned()),
        Err(CredentialsError::Incomplete)
    );
}

#[test]
fn worker_counts_follow_the_request_in_whole_groups() {
    for requested in 0..200 {
        let more = normalize_worker_count(requested + 1);
        assert!(more >= normalize_worker_count(requested));
    }
}

#[test]
fn identity_needs_peer_hashes_and_password() {
    let mut arguments = no_arguments();
    assert_eq!(
        check_identity(&arguments),
        Err(ArgumentError::PeerOrHashesMissing)
    );
    arguments.peer = "host:1".to_owned();
    arguments.vk = "hash".to_owned();
    assert_eq!(
        check_identity(&arguments),
        Err(ArgumentError::PasswordMissing)
    );
    arguments.password = "p".to_owned();
    assert_eq!(check_identity(&arguments), Ok(()));
    arguments.vk_auth_mode = "auto_js".to_owned();
    assert_eq!(
        check_identity(&arguments),
        Err(ArgumentError::JsAuthNeedsJsHashes)
    );
    arguments.vk_hash_mode = "auto_js".to_owned();
    arguments.vk = String::new();
    assert_eq!(check_identity(&arguments), Ok(()));
}

#[test]
fn transports_exclude_each_other() {
    let mut arguments = no_arguments();
    assert!(matches!(check_transport(&arguments), Ok(TunSource::Socket)));
    arguments.tun_config_hook = "/hook".to_owned();
    assert!(matches!(
        check_transport(&arguments),
        Err(ArgumentError::HookWithoutDevice)
    ));
    arguments.tun_device = "tun0".to_owned();
    assert!(matches!(check_transport(&arguments), Ok(TunSource::Device(name)) if name == "tun0"));
    arguments.socks5 = "127.0.0.1:1080".to_owned();
    assert!(matches!(
        check_transport(&arguments),
        Err(ArgumentError::SocksWithTun)
    ));
    arguments.tun_uds = "/socket".to_owned();
    assert!(matches!(
        check_transport(&arguments),
        Err(ArgumentError::TunModesExclusive)
    ));
    let mut uds = no_arguments();
    uds.tun_uds = "/socket".to_owned();
    assert!(matches!(check_transport(&uds), Ok(TunSource::Uds(path)) if path == "/socket"));
}

#[test]
fn credentials_come_from_one_place() {
    assert!(matches!(
        credential_source(false, ""),
        Ok(CredentialSource::Arguments)
    ));
    assert!(matches!(
        credential_source(true, ""),
        Ok(CredentialSource::Stdin)
    ));
    assert!(matches!(
        credential_source(false, "f"),
        Ok(CredentialSource::File)
    ));
    assert!(matches!(
        credential_source(true, "f"),
        Err(ArgumentError::CredentialSourcesExclusive)
    ));
}

#[test]
fn bootstrap_lines_carry_base64() {
    assert_eq!(
        read_vk_js_bootstrap("  VK_JS_BOOTSTRAP:aGVsbG8=\n"),
        Ok(b"hello".to_vec())
    );
    assert_eq!(
        bootstrap_payload("VK_JS_BOOTSTRAP:aGVsbG8="),
        Ok("aGVsbG8=".to_owned())
    );
    assert_eq!(
        read_vk_js_bootstrap("BOOTSTRAP:aGVsbG8="),
        Err(BootstrapError::WrongPrefix)
    );
    assert_eq!(
        read_vk_js_bootstrap("VK_JS_BOOTSTRAP:a*b"),
        Err(BootstrapError::Corrupt)
    );
    let long = format!("VK_JS_BOOTSTRAP:{}", "A".repeat(40_000));
    assert_eq!(read_vk_js_bootstrap(&long), Err(BootstrapError::TooLarge));
}

#[test]
fn lists_and_paths() {
    assert_eq!(client_ids(" 6287487 , ,8202606"), ["6287487", "8202606"]);
    assert!(hook_path_allowed("/data/hook"));
    assert!(!hook_path_allowed("hook"));
    assert_eq!(captcha_description("wv"), "WBV selected in Android");
    assert_eq!(
        captcha_description("rjs"),
        "RJS Rust v2 with WBV Auto fallback"
    );
}

#[test]
fn configurations_are_applied_once() {
    let config = "TUNCONF:10.66.66.2:1.1.1.1,8.8.8.8";
    match config_step(None, config) {
        ConfigStep::Tunnel(address, resolvers) => {
            assert_eq!(address, "10.66.66.2");
            assert_eq!(resolvers, "1.1.1.1,8.8.8.8");
        }
        _ => panic!("tunnel expected"),
    }
    assert!(matches!(
        config_step(Some(config), config),
        ConfigStep::Repeated
    ));
    assert!(matches!(config_step(None, "other"), ConfigStep::Pass));
}

#[test]
fn control_lines_are_commands() {
    assert!(matches!(
        control_command(" PAUSE\n"),
        (ControlCommand::Pause, true)
    ));
    assert!(matches!(
        control_command("RESUME"),
        (ControlCommand::Resume, true)
    ));
    assert!(matches!(
        control_command("STOP"),
        (ControlCommand::Stop, true)
    ));
    assert!(matches!(
        control_command("FINISH_VK_CALLS"),
        (ControlCommand::FinishCalls, false)
    ));
    assert!(
        matches!(control_command("CAPTCHA_RESULT|token"), (ControlCommand::CaptchaResult(t), true) if t == "token")
    );
    assert!(matches!(
        control_command("CAPTCHA_RESULT|error:tunnel stopped"),
        (ControlCommand::CaptchaResult(_), false)
    ));
    assert!(matches!(
        control_command("x"),
        (ControlCommand::Unknown, true)
    ));
}

#[test]
fn the_peer_is_looked_up_fifteen_times() {
    for attempt in 1..15 {
        assert_eq!(peer_step(attempt, false), PeerStep::Again(1_000));
        assert_eq!(peer_step(attempt, true), PeerStep::Use);
    }
    assert_eq!(peer_step(15, false), PeerStep::GiveUp(1_000));
    assert_eq!(peer_step(15, true), PeerStep::Use);
}

#[test]
fn refused_settings_are_explained() {
    for (error, text) in [
        (
            ArgumentError::JsAuthNeedsJsHashes,
            "[КЛИЕНТ] Режим авторизации Auto JS требует режим хешей Auto JS",
        ),
        (
            ArgumentError::PeerOrHashesMissing,
            "[КЛИЕНТ] Нужны -peer и хеши VK",
        ),
        (
            ArgumentError::PasswordMissing,
            "[КЛИЕНТ] Нужен -password: WRAP ключ выводится из пароля подключения",
        ),
        (
            ArgumentError::TunModesExclusive,
            "--tun-uds and --tun-device are mutually exclusive",
        ),
        (
            ArgumentError::SocksWithTun,
            "--socks5 and TUN mode are mutually exclusive",
        ),
        (
            ArgumentError::HookWithoutDevice,
            "--tun-config-hook requires --tun-device",
        ),
        (
            ArgumentError::CredentialSourcesExclusive,
            "--credentials-stdin and --credentials-file are mutually exclusive",
        ),
        (ArgumentError::NoHashes, "[КЛИЕНТ] Нет хешей VK"),
    ] {
        assert_eq!(error.message(), text);
    }
    for (error, text) in [
        (
            CredentialsError::TooLarge,
            "слишком большой пакет credentials stdin",
        ),
        (
            CredentialsError::JsonTooLarge,
            "слишком большой JSON credentials",
        ),
        (
            CredentialsError::WrongPrefix,
            "неверный префикс credentials stdin",
        ),
        (
            CredentialsError::Incomplete,
            "credentials stdin не содержит password или vk",
        ),
    ] {
        assert_eq!(error.message(), text);
    }
    for (error, text) in [
        (
            BootstrapError::WrongPrefix,
            "неверный формат данных Auto JS",
        ),
        (BootstrapError::TooLarge, "слишком большие данные Auto JS"),
        (BootstrapError::Corrupt, "повреждены данные Auto JS"),
    ] {
        assert_eq!(error.message(), text);
    }
}

#[test]
fn a_controlled_client_stops_with_its_control_input() {
    let end = |report: bool, stop: bool| ControlEnd { report, stop };
    assert_eq!(control_end(false, true), end(true, true));
    assert_eq!(control_end(true, true), end(true, true));
    assert_eq!(control_end(true, false), end(true, false));
    assert_eq!(control_end(false, false), end(false, false));
}
