use csqtt::server::legacy::{
    import_legacy_database_rows, legacy_device_matches, legacy_password_matches, load_database,
    prepare_legacy, reset_device_runtime_epochs, verify_legacy_database_rows, write_traffic,
    LegacyConflict,
};
use csqtt::server::model::{
    default_proxy_host, get_next_ip, is_expired, resolve_session_ip, ClientDevice, Database,
    LocalProxyProfile, LocalProxyState, PasswordEntry, SingleProxy,
};
use csqtt::server::net_setup::network;
use csqtt::server::persistence::{
    DatabasePersistence, PersistenceQueue, PersistenceUpdate, TrafficCounters, TrafficSnapshot,
    WriteOutcome,
};
use csqtt::server::store::{
    flag_string, read_database_snapshot, save_database, write_database_snapshot, ProfileRow, StoredTables,
};

fn device(id: &str, ip: &str) -> ClientDevice {
    ClientDevice {
        device_id: id.to_owned(),
        ip: ip.to_owned(),
        priv_key: String::new(),
        pub_key: String::new(),
        up_bytes: 0,
        down_bytes: 0,
        bound_password: String::new(),
        last_session_salt: String::new(),
        last_generation_id: 0,
    }
}

fn entry(device_id: &str) -> PasswordEntry {
    PasswordEntry {
        device_id: device_id.to_owned(),
        expires_at: 0,
        down_bytes: 0,
        up_bytes: 0,
        vk_hash: String::new(),
        ports: String::new(),
        is_deactivated: false,
        name: String::new(),
        vk_hashes: String::new(),
        dtls_port: 0,
        wg_port: 0,
        local_port: 0,
    }
}

fn profile(id: &str, port: u16) -> LocalProxyProfile {
    LocalProxyProfile {
        host: default_proxy_host(),
        id: id.to_owned(),
        name: id.to_owned(),
        port,
        username: String::new(),
        password: String::new(),
    }
}

fn saved(db: &Database) -> StoredTables {
    let mut tables = StoredTables::new();
    save_database(&mut tables, db);
    tables
}

#[test]
fn dns_survives_database_restart() {
    let mut database = Database::new();
    database.dns = "9.9.9.9,149.112.112.112".to_owned();
    let mut tables = saved(&database);
    let restored = load_database(&mut tables, &Vec::new()).unwrap();
    assert_eq!(restored.dns, database.dns);
}

#[test]
fn proxy_host_migrates_from_old_sqlite_and_survives_restart() {
    let mut old = profile("old", 45000);
    old.name = "Old".to_owned();
    let mut tables = StoredTables::new();
    tables.profiles.insert(
        "old".to_owned(),
        ProfileRow {
            sort_order: 0,
            profile: old,
        },
    );
    let mut db = load_database(&mut tables, &Vec::new()).unwrap();
    assert_eq!(db.local_proxy.profiles[0].host, "127.0.0.1");
    db.local_proxy.profiles[0].host = "192.168.88.12".to_owned();
    save_database(&mut tables, &db);
    let restored = load_database(&mut tables, &Vec::new()).unwrap();
    assert_eq!(restored.local_proxy.profiles[0].host, "192.168.88.12");
}

#[test]
fn auto_restart_interval_defaults_to_disabled_and_persists_disabled() {
    let database = Database::new();
    assert_eq!(database.auto_restart_interval_hours(), 0);
    let mut tables = saved(&database);
    tables.meta.remove("auto_restart_interval_hours");
    let mut restored = load_database(&mut tables, &Vec::new()).unwrap();
    assert_eq!(restored.auto_restart_interval_hours(), 0);
    restored.set_auto_restart_interval_hours(0);
    save_database(&mut tables, &restored);
    let disabled = load_database(&mut tables, &Vec::new()).unwrap();
    assert_eq!(disabled.auto_restart_interval_hours(), 0);
}

#[test]
fn legacy_json_is_imported_into_sqlite_and_removed() {
    let mut legacy = Database::new();
    legacy.main_password = "legacy-main".to_owned();
    legacy.main_device_id = "legacy-device".to_owned();
    legacy.dns = "9.9.9.9".to_owned();
    legacy.main_up_bytes = 11;
    legacy.main_down_bytes = 12;
    let mut client = entry("legacy-device");
    client.up_bytes = 13;
    client.down_bytes = 14;
    legacy.passwords.insert("legacy-client".to_owned(), client);
    legacy.devices.insert(
        "legacy-device".to_owned(),
        device("legacy-device", "10.66.67.2"),
    );
    let mut tables = StoredTables::new();
    let restored = load_database(&mut tables, &vec![legacy]).unwrap();
    assert_eq!(restored.main_password, "legacy-main");
    assert_eq!(restored.main_up_bytes, 11);
    assert!(restored.passwords.contains_key("legacy-client"));
    assert!(restored.devices.contains_key("legacy-device"));
}

#[test]
fn legacy_json_import_preserves_passwords_devices_and_bindings() {
    let mut legacy = Database::new();
    legacy.main_password = "old-main-password".to_owned();
    legacy.main_device_id = "owner-device".to_owned();
    legacy.dns = "77.88.8.8,77.88.8.1".to_owned();
    legacy.main_up_bytes = 900;
    legacy.main_down_bytes = 1_800;
    let mut first = entry("device-1");
    first.expires_at = 1_900_000_000;
    first.name = "first legacy user".to_owned();
    first.vk_hashes = "hash-a\nhash-b".to_owned();
    first.up_bytes = 11;
    first.down_bytes = 22;
    first.dtls_port = 46000;
    first.wg_port = 51820;
    first.local_port = 1080;
    legacy
        .passwords
        .insert("client-password-1".to_owned(), first);
    let mut second = entry("device-2");
    second.is_deactivated = true;
    second.name = "disabled legacy user".to_owned();
    second.up_bytes = 33;
    second.down_bytes = 44;
    legacy
        .passwords
        .insert("client-password-2".to_owned(), second);
    for (number, ip, up_bytes, down_bytes, generation) in [
        (1, "10.66.67.2", 55, 66, 77),
        (2, "10.66.67.3", 88, 99, 100),
    ] {
        let mut item = device(&format!("device-{number}"), ip);
        item.priv_key = format!("priv-{number}");
        item.pub_key = format!("pub-{number}");
        item.bound_password = format!("client-password-{number}");
        item.last_session_salt = format!("salt-{number}");
        item.up_bytes = up_bytes;
        item.down_bytes = down_bytes;
        item.last_generation_id = generation;
        legacy.devices.insert(format!("device-{number}"), item);
    }

    let mut tables = StoredTables::new();
    let restored = load_database(&mut tables, &vec![legacy]).unwrap();
    assert_eq!(restored.main_password, "old-main-password");
    assert_eq!(restored.main_device_id, "owner-device");
    assert_eq!(restored.dns, "77.88.8.8,77.88.8.1");
    assert_eq!(
        (restored.main_up_bytes, restored.main_down_bytes),
        (900, 1_800)
    );
    let first = restored.passwords.get("client-password-1").unwrap();
    assert_eq!(first.device_id, "device-1");
    assert_eq!(first.name, "first legacy user");
    assert_eq!(first.vk_hashes, "hash-a\nhash-b");
    assert_eq!(
        (first.dtls_port, first.wg_port, first.local_port),
        (46000, 51820, 1080)
    );
    let second = restored.passwords.get("client-password-2").unwrap();
    assert!(second.is_deactivated);
    assert_eq!(second.device_id, "device-2");
    let item = restored.devices.get("device-1").unwrap();
    assert_eq!(item.ip, "10.66.67.2");
    assert_eq!(item.bound_password, "client-password-1");
    assert!(item.last_session_salt.is_empty());
    assert_eq!(item.last_generation_id, 0);

    let reloaded = load_database(&mut tables, &Vec::new()).unwrap();
    assert_eq!(reloaded.passwords.len(), 2);
    assert_eq!(reloaded.devices.len(), 2);
}

#[test]
fn existing_sqlite_runtime_epoch_is_cleared_on_load() {
    let mut database = Database::new();
    database.devices.insert(
        "legacy-device".to_owned(),
        device("legacy-device", "10.66.67.2"),
    );
    let mut tables = saved(&database);
    let mut row = device("legacy-device", "10.66.67.2");
    row.last_session_salt = "retired-salt".to_owned();
    row.last_generation_id = 1_786_000_000_000;
    tables.devices.insert("legacy-device".to_owned(), row);

    let restored = load_database(&mut tables, &Vec::new()).unwrap();
    for devices in [&restored.devices, &tables.devices] {
        let item = devices.get("legacy-device").unwrap();
        assert!(item.last_session_salt.is_empty());
        assert_eq!(item.last_generation_id, 0);
        assert_eq!(item.ip, "10.66.67.2");
    }
}

#[test]
fn legacy_json_merges_missing_rows_without_overwriting_sqlite() {
    let bound = |id: &str, ip: &str, password: &str| {
        let mut item = device(id, ip);
        item.bound_password = password.to_owned();
        item
    };
    let named = |device_id: &str, name: &str| {
        let mut item = entry(device_id);
        item.name = name.to_owned();
        item
    };
    let mut sqlite = Database::new();
    sqlite.main_password = "sqlite-main".to_owned();
    sqlite.main_up_bytes = 50;
    sqlite
        .passwords
        .insert("sqlite-client".to_owned(), named("sqlite-device", "current"));
    sqlite.devices.insert(
        "sqlite-device".to_owned(),
        bound("sqlite-device", "10.66.67.10", "sqlite-client"),
    );
    let mut tables = saved(&sqlite);

    let mut legacy = Database::new();
    legacy.main_password = "sqlite-main".to_owned();
    legacy.main_up_bytes = 10;
    legacy
        .passwords
        .insert("legacy-client".to_owned(), named("legacy-device", "imported"));
    legacy.devices.insert(
        "legacy-device".to_owned(),
        bound("legacy-device", "10.66.67.11", "legacy-client"),
    );
    let mut known = named("sqlite-device", "current");
    known.up_bytes = 1;
    legacy.passwords.insert("sqlite-client".to_owned(), known);
    let mut known = bound("sqlite-device", "10.66.67.10", "sqlite-client");
    known.up_bytes = 1;
    legacy.devices.insert("sqlite-device".to_owned(), known);

    let restored = load_database(&mut tables, &vec![legacy]).unwrap();
    assert_eq!(restored.main_password, "sqlite-main");
    assert_eq!(restored.main_up_bytes, 50);
    assert_eq!(restored.passwords.len(), 2);
    assert_eq!(restored.devices.len(), 2);
    assert_eq!(restored.passwords.get("sqlite-client").unwrap().name, "current");
    assert_eq!(restored.passwords.get("legacy-client").unwrap().name, "imported");
    assert_eq!(restored.devices.get("sqlite-device").unwrap().ip, "10.66.67.10");
    assert_eq!(restored.devices.get("legacy-device").unwrap().ip, "10.66.67.11");
}

#[test]
fn legacy_json_with_conflicting_password_stays_on_disk() {
    let mut sqlite = Database::new();
    sqlite
        .passwords
        .insert("shared-password".to_owned(), entry("sqlite-device"));
    let mut tables = saved(&sqlite);
    let mut legacy = Database::new();
    legacy
        .passwords
        .insert("shared-password".to_owned(), entry("legacy-device"));
    let error = load_database(&mut tables, &vec![legacy]).unwrap_err();
    assert!(error
        .message()
        .contains("legacy password shared-password conflicts"));
    assert!(matches!(
        error,
        LegacyConflict::PasswordConflict(name) if name == "shared-password"
    ));
}

#[test]
fn legacy_json_with_conflicting_device_stays_on_disk() {
    let with_key = |key: &str| {
        let mut item = device("shared-device", "10.66.67.2");
        item.priv_key = key.to_owned();
        item.pub_key = "sqlite-public".to_owned();
        item.bound_password = "shared-password".to_owned();
        item
    };
    let mut sqlite = Database::new();
    sqlite
        .devices
        .insert("shared-device".to_owned(), with_key("sqlite-private"));
    let mut tables = saved(&sqlite);
    let mut legacy = Database::new();
    legacy
        .devices
        .insert("shared-device".to_owned(), with_key("legacy-private"));
    let error = load_database(&mut tables, &vec![legacy]).unwrap_err();
    assert!(error
        .message()
        .contains("legacy device shared-device conflicts"));
    assert!(matches!(
        error,
        LegacyConflict::DeviceConflict(name) if name == "shared-device"
    ));
}

#[test]
fn persistence_queue_coalesces_traffic_and_ignores_late_completion() {
    let mut queue = PersistenceQueue::new();
    let mut first = TrafficSnapshot::new();
    first.passwords.insert(
        "first".to_owned(),
        TrafficCounters {
            up_bytes: 1,
            down_bytes: 2,
        },
    );
    let (first_revision, start_first) = queue.submit_traffic(first);
    assert!(start_first);
    let mut second = TrafficSnapshot::new();
    second.devices.insert(
        "second".to_owned(),
        TrafficCounters {
            up_bytes: 3,
            down_bytes: 4,
        },
    );
    let (second_revision, start_second) = queue.submit_traffic(second);
    assert!(!start_second);
    assert!(second_revision > first_revision);
    let Some((pending_revision, PersistenceUpdate::Traffic(pending))) = queue.take_pending() else {
        panic!("expected a merged traffic operation");
    };
    assert_eq!(pending_revision, second_revision);
    assert_eq!(pending.passwords.get("first").unwrap().up_bytes, 1);
    assert_eq!(pending.devices.get("second").unwrap().down_bytes, 4);

    queue.complete(second_revision, true);
    queue.complete(first_revision, false);
    assert_eq!(queue.processed_revision, second_revision);
    assert_eq!(queue.successful_revision, second_revision);
}

#[test]
fn persistence_snapshot_supersedes_queued_traffic() {
    let mut queue = PersistenceQueue::new();
    let (traffic_revision, _) = queue.submit_traffic(TrafficSnapshot::new());
    let mut database = Database::new();
    database.main_up_bytes = 42;
    let (snapshot_revision, _) = queue.submit_snapshot(database);
    assert!(snapshot_revision > traffic_revision);
    let Some((revision, PersistenceUpdate::Snapshot(snapshot))) = queue.take_pending() else {
        panic!("expected latest database snapshot");
    };
    assert_eq!(revision, snapshot_revision);
    assert_eq!(snapshot.main_up_bytes, 42);
}

#[test]
fn database_persistence_finishes_with_latest_coalesced_snapshot() {
    let mut persistence = DatabasePersistence::new();
    let mut final_revision = 0;
    for mutation in 1..=512 {
        let mut database = Database::new();
        database.main_up_bytes = mutation;
        final_revision = persistence.submit(database);
    }
    assert!(matches!(
        persistence.wait(final_revision),
        WriteOutcome::Pending
    ));
    let mut tables = StoredTables::new();
    write_pending(&mut persistence, &mut tables);
    assert!(matches!(
        persistence.wait(final_revision),
        WriteOutcome::Saved
    ));
    let restored = load_database(&mut tables, &Vec::new()).unwrap();
    assert_eq!(restored.main_up_bytes, 512);
}

fn write_pending(persistence: &mut DatabasePersistence, tables: &mut StoredTables) {
    while let Some((revision, update)) = persistence.queue.take_pending() {
        match update {
            PersistenceUpdate::Snapshot(db) => save_database(tables, &db),
            PersistenceUpdate::Traffic(traffic) => write_traffic(tables, &traffic),
        }
        persistence.finish(revision, None);
    }
}

#[test]
fn traffic_persistence_updates_only_changed_counter_rows() {
    let mut database = Database::new();
    database.main_up_bytes = 1;
    database.main_down_bytes = 2;
    database.main_password = "main".to_owned();
    let mut client = entry("device");
    client.up_bytes = 3;
    client.down_bytes = 4;
    client.name = "kept".to_owned();
    database.passwords.insert("client".to_owned(), client);
    let mut item = device("device", "");
    item.up_bytes = 5;
    item.down_bytes = 6;
    database.devices.insert("device".to_owned(), item);
    let mut tables = saved(&database);

    let mut persistence = DatabasePersistence::new();
    let counters = |up_bytes: i64, down_bytes: i64| TrafficCounters {
        up_bytes,
        down_bytes,
    };
    let mut traffic = TrafficSnapshot::new();
    traffic.main = Some(counters(101, 102));
    traffic
        .passwords
        .insert("client".to_owned(), counters(103, 104));
    traffic
        .passwords
        .insert("gone".to_owned(), counters(107, 108));
    traffic
        .devices
        .insert("device".to_owned(), counters(105, 106));
    let revision = persistence.submit_traffic(traffic);
    write_pending(&mut persistence, &mut tables);
    assert!(matches!(persistence.wait(revision), WriteOutcome::Saved));

    let restored = load_database(&mut tables, &Vec::new()).unwrap();
    assert_eq!(
        (restored.main_up_bytes, restored.main_down_bytes),
        (101, 102)
    );
    let password = restored.passwords.get("client").unwrap();
    assert_eq!((password.up_bytes, password.down_bytes), (103, 104));
    let item = restored.devices.get("device").unwrap();
    assert_eq!((item.up_bytes, item.down_bytes), (105, 106));
    assert_eq!(restored.main_password, "main");
    assert_eq!(password.name, "kept");
    assert_eq!(restored.passwords.len(), 1);
}

#[test]
fn concurrent_database_mutations_persist_the_highest_revision() {
    let mut persistence = DatabasePersistence::new();
    let mut tables = StoredTables::new();
    let mut up_bytes: i64 = 0;
    let mut final_revision = 0;
    for _ in 0..16 {
        for _ in 0..256 {
            up_bytes = up_bytes.saturating_add(1);
            let mut database = Database::new();
            database.main_up_bytes = up_bytes;
            final_revision = final_revision.max(persistence.submit(database));
        }
        write_pending(&mut persistence, &mut tables);
    }
    assert!(matches!(
        persistence.wait(final_revision),
        WriteOutcome::Saved
    ));
    let restored = load_database(&mut tables, &Vec::new()).unwrap();
    assert_eq!(restored.main_up_bytes, 4096);
}

#[test]
fn a_failed_write_has_a_reason() {
    let mut persistence = DatabasePersistence::new();
    assert_eq!(persistence.submit_traffic(TrafficSnapshot::new()), 0);
    let revision = persistence.submit(Database::new());
    persistence.finish(revision, Some("disk full".to_owned()));
    assert!(
        matches!(persistence.wait(revision), WriteOutcome::Failed(reason) if reason == "disk full")
    );
}

#[test]
fn merging_counters_keeps_the_newest() {
    let counter = |up_bytes: i64| TrafficCounters {
        up_bytes,
        down_bytes: 0,
    };
    let snapshot = |up_bytes: i64| {
        let mut traffic = TrafficSnapshot::new();
        traffic.passwords.insert("p".to_owned(), counter(up_bytes));
        traffic
    };
    let mut merged = snapshot(1);
    assert!(!merged.is_empty());
    merged.merge_from(snapshot(2));
    merged.merge_from(snapshot(3));
    assert_eq!(merged.passwords.get("p"), Some(&counter(3)));
}

#[test]
fn a_saved_database_is_read_back() {
    let mut database = Database::new();
    database.main_password = "пароль".to_owned();
    database.logging_active = Some(true);
    database.set_auto_restart_interval_hours(6);
    database.local_proxy.profiles.push(profile("b", 1));
    database.local_proxy.profiles.push(profile("a", 2));
    database.local_proxy.active_profile_id = "a".to_owned();
    let mut tables = StoredTables::new();
    write_database_snapshot(&mut tables, &database);
    let restored = read_database_snapshot(&tables);
    assert_eq!(restored.main_password, "пароль");
    assert_eq!(restored.logging_active, Some(true));
    assert_eq!(restored.auto_restart_interval_hours(), 6);
    let ids: Vec<&str> = restored
        .local_proxy
        .profiles
        .iter()
        .map(|profile| profile.id.as_str())
        .collect();
    assert_eq!(ids, ["b", "a"]);
    assert_eq!(restored.local_proxy.active_profile_id, "a");
    assert_ne!(flag_string(true), flag_string(false));
}

#[test]
fn conflicts_name_what_differs() {
    let mut stored = Database::new();
    stored.main_password = "one".to_owned();
    let mut legacy = Database::new();
    legacy.main_password = "two".to_owned();
    assert!(matches!(
        verify_legacy_database_rows(&stored, &legacy),
        Err(LegacyConflict::MainPassword)
    ));
    legacy.main_password = "one".to_owned();
    stored.main_device_id = "x".to_owned();
    legacy.main_device_id = "y".to_owned();
    assert!(matches!(
        verify_legacy_database_rows(&stored, &legacy),
        Err(LegacyConflict::MainDevice)
    ));
    legacy.main_device_id = "x".to_owned();
    legacy.passwords.insert("p".to_owned(), entry("d"));
    assert!(matches!(
        verify_legacy_database_rows(&stored, &legacy),
        Err(LegacyConflict::PasswordMissing(_))
    ));
    stored.passwords.insert("p".to_owned(), entry("d"));
    legacy
        .devices
        .insert("d".to_owned(), device("d", "10.66.67.2"));
    assert!(matches!(
        verify_legacy_database_rows(&stored, &legacy),
        Err(LegacyConflict::DeviceMissing(_))
    ));
    stored
        .devices
        .insert("d".to_owned(), device("d", "10.66.67.2"));
    assert!(verify_legacy_database_rows(&stored, &legacy).is_ok());
    assert!(legacy_password_matches(&entry("d"), &entry("d")));
    assert!(!legacy_password_matches(&entry("d"), &entry("e")));
    assert!(legacy_device_matches(
        &device("d", "10.66.67.2"),
        &device("d", "10.66.67.2")
    ));
}

#[test]
fn an_import_adds_and_never_replaces() {
    let mut stored = Database::new();
    stored.dns = "1.1.1.1".to_owned();
    stored
        .passwords
        .insert("p".to_owned(), entry("kept"));
    let mut tables = saved(&stored);
    let mut legacy = Database::new();
    legacy.dns = "2.2.2.2".to_owned();
    legacy.passwords.insert("p".to_owned(), entry("other"));
    legacy.passwords.insert("q".to_owned(), entry("new"));
    prepare_legacy(&mut legacy);
    import_legacy_database_rows(&mut tables, &legacy);
    let merged = read_database_snapshot(&tables);
    assert_eq!(merged.dns, "1.1.1.1");
    assert_eq!(merged.passwords.get("p").unwrap().device_id, "kept");
    assert!(merged.passwords.contains_key("q"));
    reset_device_runtime_epochs(&mut tables);
}

#[test]
fn proxy_profiles_are_kept_valid() {
    let mut state = LocalProxyState::new();
    state.profiles.push(profile("a", 0));
    state.active_profile_id = "missing".to_owned();
    state.normalize();
    assert_eq!(state.profiles[0].port, 45000);
    assert_eq!(state.active_profile_id, "");
    assert!(state.active_profile().is_none());
    state.active_profile_id = "a".to_owned();
    state.normalize();
    assert_eq!(state.active_profile().unwrap().id, "a");
    state.find_profile_mut("a").unwrap().port = 9;
    assert_eq!(state.find_profile("a").unwrap().port, 9);
    assert!(state.remove_profile("a"));
    assert!(!state.remove_profile("a"));
    assert_eq!(state.active_profile_id, "");
}

#[test]
fn a_single_proxy_becomes_a_profile() {
    let single = |enabled: bool, port: Option<u64>| SingleProxy {
        enabled,
        port,
        username: "u".to_owned(),
        password: "p".to_owned(),
    };
    let state = LocalProxyState::restored(
        None,
        String::new(),
        Some(single(true, Some(1080))),
        "new".to_owned(),
    );
    assert_eq!(state.active_profile_id, "new");
    assert_eq!(state.profiles[0].name, "SOCKS5 :1080");
    let state = LocalProxyState::restored(
        None,
        String::new(),
        Some(single(false, Some(0))),
        "new".to_owned(),
    );
    assert_eq!(state.active_profile_id, "");
    assert_eq!(state.profiles[0].name, "SOCKS5 :0");
    assert_eq!(state.profiles[0].port, 45000);
    let state = LocalProxyState::restored(
        Some(vec![profile("x", 1)]),
        "x".to_owned(),
        Some(single(true, None)),
        "new".to_owned(),
    );
    assert_eq!(state.profiles.len(), 1);
    assert_eq!(state.active_profile_id, "x");
    let state = LocalProxyState::restored(None, String::new(), None, "new".to_owned());
    assert!(state.profiles.is_empty());
    assert_eq!(LocalProxyProfile::new_id().len(), 8);
    assert_ne!(LocalProxyProfile::new_id(), LocalProxyProfile::new_id());
}

#[test]
fn bindings_to_missing_passwords_are_cleared() {
    let mut db = Database::new();
    db.main_password = "main".to_owned();
    db.passwords.insert("known".to_owned(), entry("b"));
    for (id, password) in [("a", "gone"), ("b", "known"), ("c", "main")] {
        let mut item = device(id, "10.66.67.2");
        item.bound_password = password.to_owned();
        db.devices.insert(id.to_owned(), item);
    }
    assert!(db.prune_dangling_device_bindings());
    assert_eq!(db.devices.get("a").unwrap().bound_password, "");
    assert_eq!(db.devices.get("b").unwrap().bound_password, "known");
    assert_eq!(db.devices.get("c").unwrap().bound_password, "main");
    assert!(!db.prune_dangling_device_bindings());
    assert!(db.clear_device_binding("known"));
    assert_eq!(db.devices.get("b").unwrap().bound_password, "");
    assert!(!db.clear_device_binding("known"));
}

#[test]
fn passwords_expire() {
    let mut item = entry("");
    assert!(!is_expired(&item, 100));
    item.expires_at = 100;
    assert!(!is_expired(&item, 99));
    assert!(is_expired(&item, 101));
}

#[test]
fn free_addresses_are_given_out_in_order() {
    let mut db = Database::new();
    db.devices
        .insert("a".to_owned(), device("a", "10.66.67.2"));
    db.devices
        .insert("b".to_owned(), device("b", "10.66.67.4"));
    assert_eq!(get_next_ip(&db, &network()).as_deref(), Some("10.66.67.3"));
    for host in 2..=250u8 {
        db.devices.insert(
            format!("d{host}"),
            device("d", &format!("10.66.67.{host}")),
        );
    }
    assert_eq!(get_next_ip(&db, &network()), None);
}

#[test]
fn a_session_has_the_address_of_its_device() {
    let mut db = Database::new();
    let mut item = device("dev", "10.66.67.7");
    item.bound_password = "p".to_owned();
    db.devices.insert("dev".to_owned(), item);
    db.passwords.insert("p".to_owned(), entry("dev"));
    assert_eq!(
        resolve_session_ip(&db, "p", "dev").as_deref(),
        Some("10.66.67.7")
    );
    assert_eq!(
        resolve_session_ip(&db, "p", "other").as_deref(),
        Some("10.66.67.7")
    );
    assert_eq!(resolve_session_ip(&db, "q", "other"), None);
    db.main_password = "p".to_owned();
    assert_eq!(resolve_session_ip(&db, "p", ""), None);
}

#[test]
fn the_first_database_in_conflict_is_named() {
    let with = |password: &str, device_id: &str| {
        let mut database = Database::new();
        database
            .passwords
            .insert(password.to_owned(), entry(device_id));
        database
    };
    let mut sqlite = with("one", "kept");
    sqlite.passwords.insert("two".to_owned(), entry("kept"));
    let mut tables = saved(&sqlite);
    let legacies = vec![with("three", "new"), with("two", "other"), with("one", "other")];
    let error = load_database(&mut tables, &legacies).unwrap_err();
    assert_eq!(
        error.message(),
        "legacy password two conflicts with existing SQLite state"
    );
    assert_eq!(
        LegacyConflict::DeviceMissing("gone".to_owned()).message(),
        "legacy device gone is missing after import"
    );
    assert_eq!(
        LegacyConflict::PasswordMissing("gone".to_owned()).message(),
        "legacy password gone is missing after import"
    );
    assert_eq!(
        LegacyConflict::MainPassword.message(),
        "legacy main password conflicts with existing SQLite state"
    );
    assert_eq!(
        LegacyConflict::MainDevice.message(),
        "legacy main device conflicts with existing SQLite state"
    );
}

#[test]
fn a_saved_database_survives_a_restart() {
    let mut database = Database::new();
    database.main_password = "main".to_owned();
    database.main_device_id = "owner".to_owned();
    database.dns = "9.9.9.9".to_owned();
    database.admin_id = "admin".to_owned();
    database.bot_token = "token".to_owned();
    database.web_sessions.insert("session".to_owned(), 7);
    database.logging_active = Some(true);
    database.main_up_bytes = 5;
    let mut item = device("phone", "10.66.67.2");
    item.last_session_salt = "salt".to_owned();
    item.last_generation_id = 9;
    item.up_bytes = 3;
    database.devices.insert("phone".to_owned(), item);
    database.passwords.insert("client".to_owned(), entry("phone"));
    for (id, port) in [("z", 45_001), ("a", 45_002), ("m", 45_003)] {
        database.local_proxy.profiles.push(profile(id, port));
    }
    database.local_proxy.active_profile_id = "a".to_owned();
    let mut tables = saved(&database);
    let back = load_database(&mut tables, &Vec::new()).unwrap();
    assert_eq!(back.main_password, "main");
    assert_eq!(back.main_device_id, "owner");
    assert_eq!(back.dns, "9.9.9.9");
    assert_eq!(back.logging_active, Some(true));
    assert_eq!(back.auto_restart_interval_hours, Some(0));
    assert_eq!(back.main_up_bytes, 5);
    assert!(back.admin_id.is_empty() && back.bot_token.is_empty());
    assert_eq!(back.web_sessions.len(), 0);
    assert_eq!(back.passwords.get("client").unwrap().device_id, "phone");
    let item = back.devices.get("phone").unwrap();
    assert_eq!((item.up_bytes, item.last_generation_id), (3, 0));
    assert!(item.last_session_salt.is_empty());
    let ids: Vec<&str> = back
        .local_proxy
        .profiles
        .iter()
        .map(|item| item.id.as_str())
        .collect();
    assert_eq!(ids, ["z", "a", "m"]);
    assert_eq!(back.local_proxy.active_profile_id, "a");
}
