//! Databases of the retired file format: merging them into the tables, and checking
//! that nothing was lost before the files go.
use vstd::prelude::*;
use crate::server::model::{
    ClientDevice, DEFAULT_AUTO_RESTART_INTERVAL_HOURS, Database, LocalProxyProfile, PasswordEntry,
    lemma_profile_index, profile_index, valid_active, with_ports,
};
use crate::server::persistence::{TrafficCounters, TrafficSnapshot};
use crate::server::store::{
    DeviceView, ProfileRow, StoredTables, device_view, device_views, flag_string, flag_text,
    meta_or_empty, meta_text, profiles_of, read_database_snapshot, row_position, rows_in_order,
    rows_kept, snapshot_read, snapshot_written, stored_view, written_devices, written_meta,
    written_profiles,
};
use crate::text::{
    chars_of, dec, is_digit, lemma_dec, parse_unsigned, push_text, same_text, string_of, text_lt,
};
use crate::text_map::{
    TextEntry, TextMap, keys_sorted, lemma_keys_distinct, lemma_map_of_domain, lemma_map_of_index,
    map_of,
};

verus! {

// ---------------------------------------------------------------------------
// Runtime epochs
// ---------------------------------------------------------------------------

/// A device view without its runtime epoch.
pub open spec fn epoch_cleared(v: DeviceView) -> DeviceView {
    DeviceView { last_session_salt: Seq::empty(), last_generation_id: 0, ..v }
}

/// Device views without their runtime epochs.
pub open spec fn epochs_cleared(m: Map<Seq<char>, DeviceView>) -> Map<Seq<char>, DeviceView> {
    Map::new(|k: Seq<char>| m.contains_key(k), |k: Seq<char>| epoch_cleared(m[k]))
}

/// Whether the tables differ at most in the device rows.
pub open spec fn same_but_devices(a: StoredTables, b: StoredTables) -> bool {
    &&& a.meta == b.meta
    &&& a.counters == b.counters
    &&& a.passwords == b.passwords
    &&& a.profiles == b.profiles
    &&& a.active_profile_id == b.active_profile_id
}

/// Forgets the runtime epochs of all devices.
pub fn reset_device_runtime_epochs(tables: &mut StoredTables)
    requires
        old(tables).wf(),
    ensures
        final(tables).wf(),
        same_but_devices(*old(tables), *final(tables)),
        device_views(final(tables).devices@) == epochs_cleared(device_views(old(tables).devices@)),
{
    let ghost all = tables.devices.entries@;
    let mut r: TextMap<ClientDevice> = TextMap::new();
    let mut i: usize = 0;
    proof {
        assert(all.take(0) =~= Seq::<TextEntry<ClientDevice>>::empty());
        assert(device_views(r@) =~= epochs_cleared(device_views(map_of(all.take(0)))));
    }
    while i < tables.devices.entries.len()
        invariant
            i <= all.len(),
            *tables == *old(tables),
            tables.wf(),
            all == tables.devices.entries@,
            r.wf(),
            forall|k: Seq<char>| #[trigger] r@.contains_key(k) ==> r@[k].device_id@ == k,
            device_views(r@) == epochs_cleared(device_views(map_of(all.take(i as int)))),
        decreases all.len() - i,
    {
        let ghost e = all[i as int];
        let ghost before = r@;
        proof {
            assert(all.take(i as int + 1).drop_last() =~= all.take(i as int));
            assert(all.take(i as int + 1).last() == e);
            lemma_map_of_index(all, i as int);
            assert(tables.devices@.contains_key(e.key@));
        }
        let mut d = tables.devices.entries[i].value.copy();
        d.last_session_salt = String::new();
        d.last_generation_id = 0;
        r.insert(tables.devices.entries[i].key.clone(), d);
        proof {
            let cleared = epoch_cleared(device_view(e.value));
            assert(device_views(r@) =~= device_views(before).insert(e.key@, cleared));
            assert(epochs_cleared(device_views(map_of(all.take(i as int + 1))))
                =~= epochs_cleared(device_views(map_of(all.take(i as int)))).insert(
                e.key@,
                cleared,
            ));
        }
        i = i + 1;
    }
    proof {
        assert(all.take(i as int) =~= all);
    }
    tables.devices = r;
}

// ---------------------------------------------------------------------------
// Counters
// ---------------------------------------------------------------------------

/// The password rows after counters were written: rows that are there take them over,
/// and none is added.
pub open spec fn password_counters(
    rows: Map<Seq<char>, PasswordEntry>,
    counters: Map<Seq<char>, TrafficCounters>,
) -> Map<Seq<char>, PasswordEntry> {
    Map::new(
        |k: Seq<char>| rows.contains_key(k),
        |k: Seq<char>|
            if counters.contains_key(k) {
                PasswordEntry {
                    up_bytes: counters[k].up_bytes,
                    down_bytes: counters[k].down_bytes,
                    ..rows[k]
                }
            } else {
                rows[k]
            },
    )
}

/// The device rows after counters were written.
pub open spec fn device_counters(
    rows: Map<Seq<char>, ClientDevice>,
    counters: Map<Seq<char>, TrafficCounters>,
) -> Map<Seq<char>, ClientDevice> {
    Map::new(
        |k: Seq<char>| rows.contains_key(k),
        |k: Seq<char>|
            if counters.contains_key(k) {
                ClientDevice {
                    up_bytes: counters[k].up_bytes,
                    down_bytes: counters[k].down_bytes,
                    ..rows[k]
                }
            } else {
                rows[k]
            },
    )
}

/// Writes changed counters. A row that is no longer there stays away: its password or
/// device was removed after the session was closed.
pub fn write_traffic(tables: &mut StoredTables, traffic: &TrafficSnapshot)
    requires
        old(tables).wf(),
        traffic.wf(),
    ensures
        final(tables).wf(),
        final(tables).meta == old(tables).meta,
        final(tables).profiles == old(tables).profiles,
        final(tables).active_profile_id == old(tables).active_profile_id,
        final(tables).counters == (match traffic.main {
            Some(main) => Some(main),
            None => old(tables).counters,
        }),
        final(tables).passwords@ == password_counters(
            old(tables).passwords@,
            traffic.passwords@,
        ),
        final(tables).devices@ == device_counters(old(tables).devices@, traffic.devices@),
{
    if let Some(main) = traffic.main {
        tables.counters = Some(main);
    }
    let ghost ps = traffic.passwords.entries@;
    let ghost ds = traffic.devices.entries@;
    let ghost start = *tables;
    let mut i: usize = 0;
    proof {
        assert(ps.take(0) =~= Seq::<TextEntry<TrafficCounters>>::empty());
        assert(tables.passwords@ =~= password_counters(tables.passwords@, map_of(ps.take(0))));
    }
    while i < traffic.passwords.entries.len()
        invariant
            i <= ps.len(),
            ps == traffic.passwords.entries@,
            tables.wf(),
            tables.meta == start.meta,
            tables.counters == start.counters,
            tables.devices == start.devices,
            tables.profiles == start.profiles,
            tables.active_profile_id == start.active_profile_id,
            tables.passwords@ == password_counters(start.passwords@, map_of(ps.take(i as int))),
        decreases ps.len() - i,
    {
        let ghost e = ps[i as int];
        proof {
            assert(ps.take(i as int + 1).drop_last() =~= ps.take(i as int));
            assert(ps.take(i as int + 1).last() == e);
        }
        let key = traffic.passwords.entries[i].key.as_str();
        let counters = traffic.passwords.entries[i].value;
        let updated: Option<PasswordEntry> = match tables.passwords.get(key) {
            None => None,
            Some(entry) => {
                let mut entry = entry.copy();
                entry.up_bytes = counters.up_bytes;
                entry.down_bytes = counters.down_bytes;
                Some(entry)
            },
        };
        if let Some(entry) = updated {
            tables.passwords.insert(key.to_owned(), entry);
        }
        proof {
            assert(tables.passwords@ =~= password_counters(
                start.passwords@,
                map_of(ps.take(i as int + 1)),
            ));
        }
        i = i + 1;
    }
    let mut j: usize = 0;
    proof {
        assert(ps.take(i as int) =~= ps);
        assert(ds.take(0) =~= Seq::<TextEntry<TrafficCounters>>::empty());
        assert(tables.devices@ =~= device_counters(start.devices@, map_of(ds.take(0))));
    }
    while j < traffic.devices.entries.len()
        invariant
            j <= ds.len(),
            ds == traffic.devices.entries@,
            tables.wf(),
            start.wf(),
            tables.meta == start.meta,
            tables.counters == start.counters,
            tables.profiles == start.profiles,
            tables.active_profile_id == start.active_profile_id,
            tables.passwords@ == password_counters(start.passwords@, map_of(ps)),
            tables.devices@ == device_counters(start.devices@, map_of(ds.take(j as int))),
        decreases ds.len() - j,
    {
        let ghost e = ds[j as int];
        proof {
            assert(ds.take(j as int + 1).drop_last() =~= ds.take(j as int));
            assert(ds.take(j as int + 1).last() == e);
        }
        let key = traffic.devices.entries[j].key.as_str();
        let counters = traffic.devices.entries[j].value;
        let updated: Option<ClientDevice> = match tables.devices.get(key) {
            None => None,
            Some(device) => {
                let mut device = device.copy();
                device.up_bytes = counters.up_bytes;
                device.down_bytes = counters.down_bytes;
                Some(device)
            },
        };
        if let Some(device) = updated {
            tables.devices.insert(key.to_owned(), device);
        }
        proof {
            assert(tables.devices@ =~= device_counters(
                start.devices@,
                map_of(ds.take(j as int + 1)),
            ));
        }
        j = j + 1;
    }
    proof {
        assert(ds.take(j as int) =~= ds);
    }
}

// ---------------------------------------------------------------------------
// Import
// ---------------------------------------------------------------------------

/// A setting after an import: an empty or missing one is filled in.
pub open spec fn filled(old_text: Option<Seq<char>>, legacy: Seq<char>) -> Option<Seq<char>> {
    match old_text {
        Some(text) => if text.len() == 0 {
            Some(legacy)
        } else {
            Some(text)
        },
        None => Some(legacy),
    }
}

/// The settings after an import.
pub open spec fn imported_meta(
    old_m: Map<Seq<char>, String>,
    legacy: Database,
    key: Seq<char>,
) -> Option<Seq<char>> {
    let was = meta_text(old_m, key);
    if key == "logging_active"@ {
        match legacy.logging_active {
            Some(active) => if was is Some {
                was
            } else {
                Some(flag_text(active))
            },
            None => was,
        }
    } else if key == "dns"@ {
        filled(was, legacy.dns@)
    } else if key == "main_device_id"@ {
        filled(was, legacy.main_device_id@)
    } else if key == "main_password"@ {
        filled(was, legacy.main_password@)
    } else {
        was
    }
}

/// The device rows after an import: those that are missing are added.
pub open spec fn imported_devices(
    rows: Map<Seq<char>, DeviceView>,
    entries: Seq<TextEntry<ClientDevice>>,
) -> Map<Seq<char>, DeviceView>
    decreases entries.len(),
{
    if entries.len() == 0 {
        rows
    } else {
        let m = imported_devices(rows, entries.drop_last());
        let d = entries.last().value;
        if m.contains_key(d.device_id@) {
            m
        } else {
            m.insert(d.device_id@, stored_view(d))
        }
    }
}

/// The profile rows after an import: those that are missing are added.
pub open spec fn imported_profiles(
    rows: Map<Seq<char>, ProfileRow>,
    profiles: Seq<LocalProxyProfile>,
) -> Map<Seq<char>, ProfileRow>
    decreases profiles.len(),
{
    if profiles.len() == 0 {
        rows
    } else {
        let m = imported_profiles(rows, profiles.drop_last());
        let p = profiles.last();
        if m.contains_key(p.id@) {
            m
        } else {
            m.insert(p.id@, ProfileRow { sort_order: (profiles.len() - 1) as i64, profile: p })
        }
    }
}

/// The larger of two counters.
pub open spec fn larger(a: i64, b: i64) -> i64 {
    if a >= b {
        a
    } else {
        b
    }
}

/// Whether `new` is what importing `legacy` makes of `old`.
pub open spec fn legacy_imported(
    old_t: StoredTables,
    new_t: StoredTables,
    legacy: Database,
) -> bool {
    &&& forall|key: Seq<char>| #[trigger]
        meta_text(new_t.meta@, key) == imported_meta(old_t.meta@, legacy, key)
    &&& new_t.counters == Some(
        match old_t.counters {
            Some(c) => TrafficCounters {
                up_bytes: larger(c.up_bytes, legacy.main_up_bytes),
                down_bytes: larger(c.down_bytes, legacy.main_down_bytes),
            },
            None => TrafficCounters {
                up_bytes: legacy.main_up_bytes,
                down_bytes: legacy.main_down_bytes,
            },
        },
    )
    &&& new_t.passwords@ == legacy.passwords@.union_prefer_right(old_t.passwords@)
    &&& device_views(new_t.devices@) == imported_devices(
        device_views(old_t.devices@),
        legacy.devices.entries@,
    )
    &&& new_t.profiles@ == imported_profiles(old_t.profiles@, legacy.local_proxy.profiles@)
    &&& (match new_t.active_profile_id {
        Some(id) => Some(id@),
        None => None,
    }) == {
        let was = match old_t.active_profile_id {
            Some(id) => Some(id@),
            None => None,
        };
        if legacy.local_proxy.active_profile_id@.len() == 0 {
            was
        } else {
            filled(was, legacy.local_proxy.active_profile_id@)
        }
    }
}

/// Fills in a setting that is empty or missing.
fn fill_meta(meta: &mut TextMap<String>, key: &str, value: &str)
    requires
        old(meta).wf(),
    ensures
        final(meta).wf(),
        forall|k: Seq<char>| #[trigger]
            meta_text(final(meta)@, k) == if k == key@ {
                filled(meta_text(old(meta)@, k), value@)
            } else {
                meta_text(old(meta)@, k)
            },
{
    let keep = match meta.get(key) {
        Some(text) => !text.as_str().is_empty(),
        None => false,
    };
    if !keep {
        meta.insert(key.to_owned(), value.to_owned());
    }
}

fn import_meta(meta: &mut TextMap<String>, legacy: &Database)
    requires
        old(meta).wf(),
    ensures
        final(meta).wf(),
        forall|k: Seq<char>| #[trigger]
            meta_text(final(meta)@, k) == imported_meta(old(meta)@, *legacy, k),
{
    proof {
        lemma_meta_keys_distinct();
    }
    let ghost m0 = meta@;
    fill_meta(meta, "main_password", legacy.main_password.as_str());
    let ghost m1 = meta@;
    fill_meta(meta, "main_device_id", legacy.main_device_id.as_str());
    let ghost m2 = meta@;
    fill_meta(meta, "dns", legacy.dns.as_str());
    let ghost m3 = meta@;
    if let Some(active) = legacy.logging_active {
        if !meta.contains_key("logging_active") {
            meta.insert("logging_active".to_owned(), flag_string(active));
        }
    }
    proof {
        assert forall|k: Seq<char>| #[trigger] meta_text(meta@, k) == imported_meta(
            m0,
            *legacy,
            k,
        ) by {
            assert(meta_text(m1, k) == if k == "main_password"@ {
                filled(meta_text(m0, k), legacy.main_password@)
            } else {
                meta_text(m0, k)
            });
            assert(meta_text(m2, k) == if k == "main_device_id"@ {
                filled(meta_text(m1, k), legacy.main_device_id@)
            } else {
                meta_text(m1, k)
            });
            assert(meta_text(m3, k) == if k == "dns"@ {
                filled(meta_text(m2, k), legacy.dns@)
            } else {
                meta_text(m2, k)
            });
        }
    }
}

fn import_passwords(rows: &mut TextMap<PasswordEntry>, legacy: &TextMap<PasswordEntry>)
    requires
        old(rows).wf(),
        legacy.wf(),
    ensures
        final(rows).wf(),
        final(rows)@ == legacy@.union_prefer_right(old(rows)@),
{
    let ghost all = legacy.entries@;
    let ghost start = rows@;
    let mut i: usize = 0;
    proof {
        assert(all.take(0) =~= Seq::<TextEntry<PasswordEntry>>::empty());
        assert(rows@ =~= map_of(all.take(0)).union_prefer_right(start));
    }
    while i < legacy.entries.len()
        invariant
            i <= all.len(),
            all == legacy.entries@,
            keys_sorted(all),
            rows.wf(),
            rows@ == map_of(all.take(i as int)).union_prefer_right(start),
        decreases all.len() - i,
    {
        let ghost e = all[i as int];
        proof {
            let t = all.take(i as int);
            assert(all.take(i as int + 1).drop_last() =~= t);
            assert(all.take(i as int + 1).last() == e);
            lemma_map_of_domain(t, e.key@);
            if map_of(t).contains_key(e.key@) {
                let k = choose|k: int| 0 <= k < t.len() && (#[trigger] t[k]).key@ == e.key@;
                assert(all[k].key@ == all[i as int].key@);
                lemma_keys_distinct(all, k, i as int);
            }
        }
        if !rows.contains_key(legacy.entries[i].key.as_str()) {
            rows.insert(legacy.entries[i].key.clone(), legacy.entries[i].value.copy());
        }
        proof {
            assert(rows@ =~= map_of(all.take(i as int + 1)).union_prefer_right(start));
        }
        i = i + 1;
    }
    proof {
        assert(all.take(i as int) =~= all);
    }
}

fn import_devices(rows: &mut TextMap<ClientDevice>, legacy: &TextMap<ClientDevice>)
    requires
        old(rows).wf(),
        forall|k: Seq<char>| #[trigger]
            old(rows)@.contains_key(k) ==> old(rows)@[k].device_id@ == k,
    ensures
        final(rows).wf(),
        forall|k: Seq<char>| #[trigger]
            final(rows)@.contains_key(k) ==> final(rows)@[k].device_id@ == k,
        device_views(final(rows)@) == imported_devices(
            device_views(old(rows)@),
            legacy.entries@,
        ),
{
    let ghost all = legacy.entries@;
    let ghost start = device_views(rows@);
    let mut i: usize = 0;
    proof {
        assert(all.take(0) =~= Seq::<TextEntry<ClientDevice>>::empty());
    }
    while i < legacy.entries.len()
        invariant
            i <= all.len(),
            all == legacy.entries@,
            rows.wf(),
            forall|k: Seq<char>| #[trigger] rows@.contains_key(k) ==> rows@[k].device_id@ == k,
            device_views(rows@) == imported_devices(start, all.take(i as int)),
        decreases all.len() - i,
    {
        let ghost e = all[i as int];
        let ghost before = rows@;
        proof {
            assert(all.take(i as int + 1).drop_last() =~= all.take(i as int));
            assert(all.take(i as int + 1).last() == e);
            assert(device_views(before).contains_key(e.value.device_id@) == before.contains_key(
                e.value.device_id@,
            ));
        }
        if !rows.contains_key(legacy.entries[i].value.device_id.as_str()) {
            let mut d = legacy.entries[i].value.copy();
            d.last_session_salt = String::new();
            d.last_generation_id = 0;
            let key = d.device_id.clone();
            rows.insert(key, d);
            proof {
                assert(device_views(rows@) =~= device_views(before).insert(
                    e.value.device_id@,
                    stored_view(e.value),
                ));
            }
        }
        i = i + 1;
    }
    proof {
        assert(all.take(i as int) =~= all);
    }
}

fn import_profiles(rows: &mut TextMap<ProfileRow>, legacy: &Vec<LocalProxyProfile>)
    requires
        old(rows).wf(),
        forall|k: Seq<char>| #[trigger]
            old(rows)@.contains_key(k) ==> old(rows)@[k].profile.id@ == k,
    ensures
        final(rows).wf(),
        forall|k: Seq<char>| #[trigger]
            final(rows)@.contains_key(k) ==> final(rows)@[k].profile.id@ == k,
        final(rows)@ == imported_profiles(old(rows)@, legacy@),
{
    let ghost all = legacy@;
    let mut i: usize = 0;
    proof {
        assert(all.take(0) =~= Seq::<LocalProxyProfile>::empty());
    }
    while i < legacy.len()
        invariant
            i <= all.len(),
            all == legacy@,
            rows.wf(),
            forall|k: Seq<char>| #[trigger] rows@.contains_key(k) ==> rows@[k].profile.id@ == k,
            rows@ == imported_profiles(old(rows)@, all.take(i as int)),
        decreases all.len() - i,
    {
        proof {
            assert(all.take(i as int + 1).drop_last() =~= all.take(i as int));
            assert(all.take(i as int + 1).last() == all[i as int]);
        }
        if !rows.contains_key(legacy[i].id.as_str()) {
            rows.insert(
                legacy[i].id.clone(),
                ProfileRow { sort_order: i as i64, profile: legacy[i].copy() },
            );
        }
        i = i + 1;
    }
    proof {
        assert(all.take(i as int) =~= all);
    }
}

fn max_counter(a: i64, b: i64) -> (r: i64)
    ensures
        r == larger(a, b),
{
    if a >= b {
        a
    } else {
        b
    }
}

/// Merges a retired database into the tables: what is missing or empty is filled in,
/// the larger counters win, and nothing that is there is overwritten.
pub fn import_legacy_database_rows(tables: &mut StoredTables, legacy: &Database)
    requires
        old(tables).wf(),
        legacy.wf(),
    ensures
        final(tables).wf(),
        legacy_imported(*old(tables), *final(tables), *legacy),
{
    import_meta(&mut tables.meta, legacy);
    tables.counters = match tables.counters {
        Some(c) => Some(
            TrafficCounters {
                up_bytes: max_counter(c.up_bytes, legacy.main_up_bytes),
                down_bytes: max_counter(c.down_bytes, legacy.main_down_bytes),
            },
        ),
        None => Some(
            TrafficCounters {
                up_bytes: legacy.main_up_bytes,
                down_bytes: legacy.main_down_bytes,
            },
        ),
    };
    import_passwords(&mut tables.passwords, &legacy.passwords);
    import_devices(&mut tables.devices, &legacy.devices);
    import_profiles(&mut tables.profiles, &legacy.local_proxy.profiles);
    if !legacy.local_proxy.active_profile_id.as_str().is_empty() {
        let keep = match &tables.active_profile_id {
            Some(id) => !id.as_str().is_empty(),
            None => false,
        };
        if !keep {
            tables.active_profile_id = Some(legacy.local_proxy.active_profile_id.clone());
        }
    }
}

/// An import never overwrites: settings with a text keep it, and rows of passwords,
/// devices and profiles that are there stay as they are.
pub proof fn law_import_keeps_what_is_there(
    old_t: StoredTables,
    new_t: StoredTables,
    legacy: Database,
    key: Seq<char>,
)
    requires
        legacy_imported(old_t, new_t, legacy),
    ensures
        meta_or_empty(old_t.meta@, key).len() > 0 ==> meta_text(new_t.meta@, key) == meta_text(
            old_t.meta@,
            key,
        ),
        old_t.passwords@.contains_key(key) ==> new_t.passwords@.contains_key(key)
            && new_t.passwords@[key] == old_t.passwords@[key],
        old_t.devices@.contains_key(key) ==> new_t.devices@.contains_key(key) && device_view(
            new_t.devices@[key],
        ) == device_view(old_t.devices@[key]),
        old_t.profiles@.contains_key(key) ==> new_t.profiles@.contains_key(key)
            && new_t.profiles@[key] == old_t.profiles@[key],
{
    assert(meta_text(new_t.meta@, key) == imported_meta(old_t.meta@, legacy, key));
    lemma_imported_devices(device_views(old_t.devices@), legacy.devices.entries@, key);
    lemma_imported_profiles(old_t.profiles@, legacy.local_proxy.profiles@, key);
    if old_t.devices@.contains_key(key) {
        assert(device_views(old_t.devices@).contains_key(key));
        assert(device_views(new_t.devices@).contains_key(key));
        assert(device_views(new_t.devices@)[key] == device_views(old_t.devices@)[key]);
    }
}

/// An import leaves no password, no device and no profile of the retired database out.
pub proof fn law_import_leaves_nothing_out(
    old_t: StoredTables,
    new_t: StoredTables,
    legacy: Database,
    key: Seq<char>,
    i: int,
)
    requires
        legacy_imported(old_t, new_t, legacy),
    ensures
        legacy.passwords@.contains_key(key) ==> new_t.passwords@.contains_key(key),
        0 <= i < legacy.devices.entries@.len() ==> new_t.devices@.contains_key(
            legacy.devices.entries@[i].value.device_id@,
        ),
        0 <= i < legacy.local_proxy.profiles@.len() ==> new_t.profiles@.contains_key(
            legacy.local_proxy.profiles@[i].id@,
        ),
{
    if 0 <= i < legacy.devices.entries@.len() {
        lemma_imported_device_there(device_views(old_t.devices@), legacy.devices.entries@, i);
        assert(device_views(new_t.devices@).contains_key(
            legacy.devices.entries@[i].value.device_id@,
        ));
    }
    if 0 <= i < legacy.local_proxy.profiles@.len() {
        lemma_imported_profile_there(old_t.profiles@, legacy.local_proxy.profiles@, i);
    }
}

proof fn lemma_imported_devices(
    rows: Map<Seq<char>, DeviceView>,
    entries: Seq<TextEntry<ClientDevice>>,
    key: Seq<char>,
)
    ensures
        rows.contains_key(key) ==> imported_devices(rows, entries).contains_key(key)
            && imported_devices(rows, entries)[key] == rows[key],
    decreases entries.len(),
{
    if entries.len() > 0 {
        lemma_imported_devices(rows, entries.drop_last(), key);
    }
}

proof fn lemma_imported_device_there(
    rows: Map<Seq<char>, DeviceView>,
    entries: Seq<TextEntry<ClientDevice>>,
    i: int,
)
    requires
        0 <= i < entries.len(),
    ensures
        imported_devices(rows, entries).contains_key(entries[i].value.device_id@),
    decreases entries.len(),
{
    if i < entries.len() - 1 {
        lemma_imported_device_there(rows, entries.drop_last(), i);
    }
}

proof fn lemma_imported_profiles(
    rows: Map<Seq<char>, ProfileRow>,
    profiles: Seq<LocalProxyProfile>,
    key: Seq<char>,
)
    ensures
        rows.contains_key(key) ==> imported_profiles(rows, profiles).contains_key(key)
            && imported_profiles(rows, profiles)[key] == rows[key],
    decreases profiles.len(),
{
    if profiles.len() > 0 {
        lemma_imported_profiles(rows, profiles.drop_last(), key);
    }
}

proof fn lemma_imported_profile_there(
    rows: Map<Seq<char>, ProfileRow>,
    profiles: Seq<LocalProxyProfile>,
    i: int,
)
    requires
        0 <= i < profiles.len(),
    ensures
        imported_profiles(rows, profiles).contains_key(profiles[i].id@),
    decreases profiles.len(),
{
    if i < profiles.len() - 1 {
        lemma_imported_profile_there(rows, profiles.drop_last(), i);
    }
}

// ---------------------------------------------------------------------------
// Verification of an import
// ---------------------------------------------------------------------------

/// Why a retired database may not be removed.
#[derive(Debug)]
pub enum LegacyConflict {
    /// The main passwords differ.
    MainPassword,
    /// The main devices differ.
    MainDevice,
    /// A password is not in the tables.
    PasswordMissing(String),
    /// A password has other data in the tables.
    PasswordConflict(String),
    /// A device is not in the tables.
    DeviceMissing(String),
    /// A device has other data in the tables.
    DeviceConflict(String),
}

/// What is said of a row: the kind of row, its name, and what is wrong with it.
pub open spec fn row_message(kind: Seq<char>, name: Seq<char>, fault: Seq<char>) -> Seq<char> {
    kind + name + fault
}

fn row_text(kind: &str, name: &String, fault: &str) -> (r: String)
    ensures
        r@ == row_message(kind@, name@, fault@),
{
    let mut out = chars_of(kind);
    push_text(&mut out, name.as_str());
    push_text(&mut out, fault);
    string_of(out.as_slice())
}

impl LegacyConflict {
    /// The conflict in words.
    pub fn message(&self) -> (r: String)
        ensures
            conflict_words(*self, r@),
    {
        match self {
            LegacyConflict::MainPassword => {
                "legacy main password conflicts with existing SQLite state".to_owned()
            },
            LegacyConflict::MainDevice => {
                "legacy main device conflicts with existing SQLite state".to_owned()
            },
            LegacyConflict::PasswordMissing(name) => {
                row_text("legacy password ", name, " is missing after import")
            },
            LegacyConflict::PasswordConflict(name) => {
                row_text("legacy password ", name, " conflicts with existing SQLite state")
            },
            LegacyConflict::DeviceMissing(name) => {
                row_text("legacy device ", name, " is missing after import")
            },
            LegacyConflict::DeviceConflict(name) => {
                row_text("legacy device ", name, " conflicts with existing SQLite state")
            },
        }
    }
}

/// Whether two entries agree in everything but their counters.
pub open spec fn passwords_match(a: PasswordEntry, b: PasswordEntry) -> bool {
    &&& a.device_id@ == b.device_id@
    &&& a.expires_at == b.expires_at
    &&& a.vk_hash@ == b.vk_hash@
    &&& a.ports@ == b.ports@
    &&& a.is_deactivated == b.is_deactivated
    &&& a.name@ == b.name@
    &&& a.vk_hashes@ == b.vk_hashes@
    &&& a.dtls_port == b.dtls_port
    &&& a.wg_port == b.wg_port
    &&& a.local_port == b.local_port
}

/// Whether two entries agree in everything but their counters.
pub fn legacy_password_matches(sqlite: &PasswordEntry, legacy: &PasswordEntry) -> (r: bool)
    ensures
        r == passwords_match(*sqlite, *legacy),
{
    sqlite.device_id == legacy.device_id && sqlite.expires_at == legacy.expires_at && sqlite.vk_hash
        == legacy.vk_hash && sqlite.ports == legacy.ports && sqlite.is_deactivated
        == legacy.is_deactivated && sqlite.name == legacy.name && sqlite.vk_hashes
        == legacy.vk_hashes && sqlite.dtls_port == legacy.dtls_port && sqlite.wg_port
        == legacy.wg_port && sqlite.local_port == legacy.local_port
}

/// Whether two devices agree in number, address, keys and binding.
pub open spec fn devices_match(a: ClientDevice, b: ClientDevice) -> bool {
    &&& a.device_id@ == b.device_id@
    &&& a.ip@ == b.ip@
    &&& a.priv_key@ == b.priv_key@
    &&& a.pub_key@ == b.pub_key@
    &&& a.bound_password@ == b.bound_password@
}

/// Whether two devices agree in number, address, keys and binding.
pub fn legacy_device_matches(sqlite: &ClientDevice, legacy: &ClientDevice) -> (r: bool)
    ensures
        r == devices_match(*sqlite, *legacy),
{
    sqlite.device_id == legacy.device_id && sqlite.ip == legacy.ip && sqlite.priv_key
        == legacy.priv_key && sqlite.pub_key == legacy.pub_key && sqlite.bound_password
        == legacy.bound_password
}

/// Two texts that are both there and differ.
pub open spec fn texts_conflict(a: Seq<char>, b: Seq<char>) -> bool {
    a.len() > 0 && b.len() > 0 && a != b
}

/// Whether a password row stands for an entry of the retired database.
pub open spec fn password_kept(
    rows: Map<Seq<char>, PasswordEntry>,
    e: TextEntry<PasswordEntry>,
) -> bool {
    rows.contains_key(e.key@) && passwords_match(rows[e.key@], e.value)
}

/// Whether a device row stands for a device of the retired database.
pub open spec fn device_kept(
    rows: Map<Seq<char>, ClientDevice>,
    e: TextEntry<ClientDevice>,
) -> bool {
    rows.contains_key(e.key@) && devices_match(rows[e.key@], e.value)
}

/// What the check of an import reports: the first thing that does not agree, the main
/// password before the main device before the passwords before the devices.
pub open spec fn legacy_verdict(
    sqlite: Database,
    legacy: Database,
    r: Result<(), LegacyConflict>,
) -> bool {
    let ps = legacy.passwords.entries@;
    let ds = legacy.devices.entries@;
    if texts_conflict(legacy.main_password@, sqlite.main_password@) {
        r == Err::<(), LegacyConflict>(LegacyConflict::MainPassword)
    } else if texts_conflict(legacy.main_device_id@, sqlite.main_device_id@) {
        r == Err::<(), LegacyConflict>(LegacyConflict::MainDevice)
    } else if exists|i: int|
        0 <= i < ps.len() && !password_kept(sqlite.passwords@, #[trigger] ps[i]) {
        exists|i: int|
            {
                &&& 0 <= i < ps.len()
                &&& !password_kept(sqlite.passwords@, #[trigger] ps[i])
                &&& forall|j: int|
                    0 <= j < i ==> password_kept(sqlite.passwords@, #[trigger] ps[j])
                &&& r == Err::<(), LegacyConflict>(
                    if sqlite.passwords@.contains_key(ps[i].key@) {
                        LegacyConflict::PasswordConflict(ps[i].key)
                    } else {
                        LegacyConflict::PasswordMissing(ps[i].key)
                    },
                )
            }
    } else if exists|i: int|
        0 <= i < ds.len() && !device_kept(sqlite.devices@, #[trigger] ds[i]) {
        exists|i: int|
            {
                &&& 0 <= i < ds.len()
                &&& !device_kept(sqlite.devices@, #[trigger] ds[i])
                &&& forall|j: int| 0 <= j < i ==> device_kept(sqlite.devices@, #[trigger] ds[j])
                &&& r == Err::<(), LegacyConflict>(
                    if sqlite.devices@.contains_key(ds[i].key@) {
                        LegacyConflict::DeviceConflict(ds[i].key)
                    } else {
                        LegacyConflict::DeviceMissing(ds[i].key)
                    },
                )
            }
    } else {
        r is Ok
    }
}

/// Whether the tables lost nothing of a retired database.
pub open spec fn legacy_consistent(sqlite: Database, legacy: Database) -> bool {
    &&& !texts_conflict(legacy.main_password@, sqlite.main_password@)
    &&& !texts_conflict(legacy.main_device_id@, sqlite.main_device_id@)
    &&& forall|i: int|
        0 <= i < legacy.passwords.entries@.len() ==> password_kept(
            sqlite.passwords@,
            #[trigger] legacy.passwords.entries@[i],
        )
    &&& forall|i: int|
        0 <= i < legacy.devices.entries@.len() ==> device_kept(
            sqlite.devices@,
            #[trigger] legacy.devices.entries@[i],
        )
}

fn conflict(a: &str, b: &str) -> (r: bool)
    ensures
        r == texts_conflict(a@, b@),
{
    !a.is_empty() && !b.is_empty() && !same_text(a, b)
}

/// Checks that everything of a retired database is in the tables.
pub fn verify_legacy_database_rows(sqlite: &Database, legacy: &Database) -> (r: Result<
    (),
    LegacyConflict,
>)
    requires
        sqlite.wf(),
        legacy.wf(),
    ensures
        legacy_verdict(*sqlite, *legacy, r),
        r is Ok <==> legacy_consistent(*sqlite, *legacy),
{
    if conflict(legacy.main_password.as_str(), sqlite.main_password.as_str()) {
        return Err(LegacyConflict::MainPassword);
    }
    if conflict(legacy.main_device_id.as_str(), sqlite.main_device_id.as_str()) {
        return Err(LegacyConflict::MainDevice);
    }
    let ghost ps = legacy.passwords.entries@;
    let ghost ds = legacy.devices.entries@;
    let mut i: usize = 0;
    while i < legacy.passwords.entries.len()
        invariant
            i <= ps.len(),
            ps == legacy.passwords.entries@,
            sqlite.wf(),
            !texts_conflict(legacy.main_password@, sqlite.main_password@),
            !texts_conflict(legacy.main_device_id@, sqlite.main_device_id@),
            forall|j: int| 0 <= j < i ==> password_kept(sqlite.passwords@, #[trigger] ps[j]),
        decreases ps.len() - i,
    {
        match sqlite.passwords.get(legacy.passwords.entries[i].key.as_str()) {
            None => {
                proof {
                    assert(!password_kept(sqlite.passwords@, ps[i as int]));
                }
                return Err(
                    LegacyConflict::PasswordMissing(legacy.passwords.entries[i].key.clone()),
                );
            },
            Some(entry) => {
                if !legacy_password_matches(entry, &legacy.passwords.entries[i].value) {
                    proof {
                        assert(!password_kept(sqlite.passwords@, ps[i as int]));
                    }
                    return Err(
                        LegacyConflict::PasswordConflict(legacy.passwords.entries[i].key.clone()),
                    );
                }
            },
        }
        i = i + 1;
    }
    let mut j: usize = 0;
    while j < legacy.devices.entries.len()
        invariant
            j <= ds.len(),
            ds == legacy.devices.entries@,
            ps == legacy.passwords.entries@,
            sqlite.wf(),
            !texts_conflict(legacy.main_password@, sqlite.main_password@),
            !texts_conflict(legacy.main_device_id@, sqlite.main_device_id@),
            forall|k: int|
                0 <= k < ps.len() ==> password_kept(sqlite.passwords@, #[trigger] ps[k]),
            forall|k: int| 0 <= k < j ==> device_kept(sqlite.devices@, #[trigger] ds[k]),
        decreases ds.len() - j,
    {
        match sqlite.devices.get(legacy.devices.entries[j].key.as_str()) {
            None => {
                proof {
                    assert(!device_kept(sqlite.devices@, ds[j as int]));
                }
                return Err(LegacyConflict::DeviceMissing(legacy.devices.entries[j].key.clone()));
            },
            Some(device) => {
                if !legacy_device_matches(device, &legacy.devices.entries[j].value) {
                    proof {
                        assert(!device_kept(sqlite.devices@, ds[j as int]));
                    }
                    return Err(
                        LegacyConflict::DeviceConflict(legacy.devices.entries[j].key.clone()),
                    );
                }
            },
        }
        j = j + 1;
    }
    Ok(())
}

/// What a retired database may carry over: no administrator, no bot token, no web
/// sessions, and proxy profiles in normal form.
pub fn prepare_legacy(legacy: &mut Database)
    requires
        old(legacy).wf(),
    ensures
        final(legacy).wf(),
        final(legacy).bot_token@ == Seq::<char>::empty(),
        final(legacy).admin_id@ == Seq::<char>::empty(),
        final(legacy).web_sessions@ == Map::<Seq<char>, i64>::empty(),
        final(legacy).local_proxy.profiles@ == with_ports(old(legacy).local_proxy.profiles@),
        final(legacy).local_proxy.active_profile_id@ == valid_active(
            old(legacy).local_proxy.profiles@,
            old(legacy).local_proxy.active_profile_id@,
        ),
        *final(legacy) == (Database {
            bot_token: final(legacy).bot_token,
            admin_id: final(legacy).admin_id,
            web_sessions: final(legacy).web_sessions,
            local_proxy: final(legacy).local_proxy,
            ..*old(legacy)
        }),
{
    legacy.bot_token = String::new();
    legacy.admin_id = String::new();
    legacy.web_sessions = TextMap::new();
    legacy.local_proxy.normalize();
}

/// A chain of imports: each step takes over one retired database.
pub open spec fn import_chain(steps: Seq<StoredTables>, legacies: Seq<Database>) -> bool {
    &&& steps.len() == legacies.len() + 1
    &&& forall|i: int|
        0 <= i < legacies.len() ==> legacy_imported(
            #[trigger] steps[i],
            steps[i + 1],
            legacies[i],
        )
}

/// Whether `r` is what loading the database gives, and `after` are the tables that it
/// leaves: runtime epochs are cleared, and the retired databases are merged in one after
/// the other. The result is what the tables then hold, or the conflict of the first
/// database of which something was lost.
pub open spec fn database_loaded(
    before: StoredTables,
    after: StoredTables,
    legacies: Seq<Database>,
    r: Result<Database, LegacyConflict>,
) -> bool {
    &&& exists|steps: Seq<StoredTables>| #[trigger]
        import_chain(steps, legacies) && same_but_devices(before, steps[0]) && device_views(
            steps[0].devices@,
        ) == epochs_cleared(device_views(before.devices@)) && steps.last() == after
    &&& match r {
        Ok(db) => {
            &&& db.wf()
            &&& snapshot_read(after, db)
            &&& forall|i: int|
                0 <= i < legacies.len() ==> legacy_consistent(db, #[trigger] legacies[i])
        },
        Err(conflict) => exists|db: Database, i: int|
            #![trigger legacy_verdict(db, legacies[i], Err(conflict))]
            {
                &&& snapshot_read(after, db)
                &&& 0 <= i < legacies.len()
                &&& forall|k: int| 0 <= k < i ==> legacy_consistent(db, #[trigger] legacies[k])
                &&& !legacy_consistent(db, legacies[i])
                &&& legacy_verdict(db, legacies[i], Err(conflict))
            },
    }
}

/// Loads the database from the tables, after merging retired databases into them. It
/// succeeds if and only if nothing of them was lost; only then may they be removed. What is
/// reported otherwise is the conflict of the first that lost something.
pub fn load_database(tables: &mut StoredTables, legacies: &Vec<Database>) -> (r: Result<
    Database,
    LegacyConflict,
>)
    requires
        old(tables).wf(),
        forall|i: int|
            0 <= i < legacies@.len() ==> (#[trigger] legacies@[i]).wf(),
    ensures
        final(tables).wf(),
        database_loaded(*old(tables), *final(tables), legacies@, r),
{
    reset_device_runtime_epochs(tables);
    let ghost mut steps: Seq<StoredTables> = seq![*tables];
    let mut i: usize = 0;
    while i < legacies.len()
        invariant
            i <= legacies@.len(),
            tables.wf(),
            forall|k: int|
                0 <= k < legacies@.len() ==> (#[trigger] legacies@[k]).wf(),
            steps.len() == i + 1,
            steps.last() == *tables,
            same_but_devices(*old(tables), steps[0]),
            device_views(steps[0].devices@) == epochs_cleared(device_views(old(tables).devices@)),
            forall|k: int|
                0 <= k < i ==> legacy_imported(#[trigger] steps[k], steps[k + 1], legacies@[k]),
        decreases legacies@.len() - i,
    {
        let ghost before = steps;
        import_legacy_database_rows(tables, &legacies[i]);
        proof {
            steps = steps.push(*tables);
            assert forall|k: int| 0 <= k < i + 1 implies legacy_imported(
                #[trigger] steps[k],
                steps[k + 1],
                legacies@[k],
            ) by {
                if k < i {
                    assert(steps[k] == before[k] && steps[k + 1] == before[k + 1]);
                } else {
                    assert(steps[k] == before.last());
                }
            }
        }
        i = i + 1;
    }
    proof {
        assert(import_chain(steps, legacies@));
    }
    let db = read_database_snapshot(tables);
    let mut j: usize = 0;
    while j < legacies.len()
        invariant
            j <= legacies@.len(),
            db.wf(),
            tables.wf(),
            snapshot_read(*tables, db),
            steps.len() == legacies@.len() + 1,
            steps.last() == *tables,
            import_chain(steps, legacies@),
            same_but_devices(*old(tables), steps[0]),
            device_views(steps[0].devices@) == epochs_cleared(device_views(old(tables).devices@)),
            forall|k: int| 0 <= k < legacies@.len() ==> (#[trigger] legacies@[k]).wf(),
            forall|k: int| 0 <= k < j ==> legacy_consistent(db, #[trigger] legacies@[k]),
        decreases legacies@.len() - j,
    {
        match verify_legacy_database_rows(&db, &legacies[j]) {
            Ok(()) => {},
            Err(conflict) => {
                return Err(conflict);
            },
        }
        j = j + 1;
    }
    Ok(db)
}

// ---------------------------------------------------------------------------
// Round trip
// ---------------------------------------------------------------------------

/// A database whose devices and profiles are listed under their own numbers, each once.
pub open spec fn numbered(db: Database) -> bool {
    &&& forall|i: int|
        0 <= i < db.devices.entries@.len() ==> (#[trigger] db.devices.entries@[i]).value.device_id@
            == db.devices.entries@[i].key@
    &&& forall|i: int, j: int|
        0 <= i < j < db.local_proxy.profiles@.len() ==> (
        #[trigger] db.local_proxy.profiles@[i]).id@ != (#[trigger] db.local_proxy.profiles@[j]).id@
}

/// Whether `back` is what is kept of a database: settings, counters, passwords, devices
/// without their runtime epochs, and proxy profiles in their order. The administrator, the
/// bot token and the web sessions are dropped, and an unset restart interval is the default.
pub open spec fn restored(db: Database, back: Database) -> bool {
    &&& back.main_password@ == db.main_password@
    &&& back.main_device_id@ == db.main_device_id@
    &&& back.dns@ == db.dns@
    &&& back.admin_id@ == Seq::<char>::empty()
    &&& back.bot_token@ == Seq::<char>::empty()
    &&& back.web_sessions@ == Map::<Seq<char>, i64>::empty()
    &&& back.auto_restart_interval_hours == Some(
        match db.auto_restart_interval_hours {
            Some(hours) => hours,
            None => DEFAULT_AUTO_RESTART_INTERVAL_HOURS,
        },
    )
    &&& back.logging_active == db.logging_active
    &&& back.main_up_bytes == db.main_up_bytes
    &&& back.main_down_bytes == db.main_down_bytes
    &&& back.passwords@ == db.passwords@
    &&& device_views(back.devices@) == epochs_cleared(device_views(db.devices@))
    &&& back.local_proxy.profiles@ == with_ports(db.local_proxy.profiles@)
    &&& back.local_proxy.active_profile_id@ == valid_active(
        db.local_proxy.profiles@,
        db.local_proxy.active_profile_id@,
    )
}

/// What was written is read back. The positions of the profiles are stored as signed
/// numbers, so there may be no more profiles than those can count.
pub proof fn law_snapshot_round_trip(
    old_t: StoredTables,
    new_t: StoredTables,
    db: Database,
    back: Database,
)
    requires
        old_t.wf(),
        new_t.wf(),
        db.wf(),
        numbered(db),
        db.local_proxy.profiles@.len() <= i64::MAX,
        snapshot_written(old_t, new_t, db),
        snapshot_read(new_t, back),
    ensures
        restored(db, back),
{
    lemma_meta_keys_distinct();
    assert(meta_text(new_t.meta@, "main_password"@) == written_meta(
        old_t.meta@,
        db,
        "main_password"@,
    ));
    assert(meta_text(new_t.meta@, "main_device_id"@) == written_meta(
        old_t.meta@,
        db,
        "main_device_id"@,
    ));
    assert(meta_text(new_t.meta@, "dns"@) == written_meta(old_t.meta@, db, "dns"@));
    assert(meta_text(new_t.meta@, "auto_restart_interval_hours"@) == written_meta(
        old_t.meta@,
        db,
        "auto_restart_interval_hours"@,
    ));
    assert(meta_text(new_t.meta@, "logging_active"@) == written_meta(
        old_t.meta@,
        db,
        "logging_active"@,
    ));
    let hours: nat = match db.auto_restart_interval_hours {
        Some(hours) => hours as nat,
        None => DEFAULT_AUTO_RESTART_INTERVAL_HOURS as nat,
    };
    lemma_dec(hours);
    assert(is_digit(dec(hours)[0]));
    assert(parse_unsigned(dec(hours), 255) == Some(hours));
    reveal_strlit("1");
    reveal_strlit("0");
    assert("1"@[0] != "0"@[0]);
    lemma_written_devices(old_t, db);
    lemma_written_rows_order(old_t, new_t, db);
}

/// A saved database survives a restart: loading, with no retired database beside it,
/// succeeds and gives it back.
pub proof fn law_save_then_load(
    earlier: StoredTables,
    saved: StoredTables,
    after: StoredTables,
    db: Database,
    r: Result<Database, LegacyConflict>,
)
    requires
        earlier.wf(),
        saved.wf(),
        db.wf(),
        numbered(db),
        db.local_proxy.profiles@.len() <= i64::MAX,
        snapshot_written(earlier, saved, db),
        database_loaded(saved, after, Seq::empty(), r),
    ensures
        r is Ok,
        restored(db, r->Ok_0),
{
    let back = r->Ok_0;
    let read = Database { devices: saved.devices, ..back };
    assert(snapshot_read(saved, read));
    law_snapshot_round_trip(earlier, saved, db, read);
    assert(device_views(back.devices@) =~= epochs_cleared(device_views(db.devices@)));
}

proof fn lemma_meta_keys_distinct()
    ensures
        "main_password"@ != "main_device_id"@,
        "main_password"@ != "dns"@,
        "main_password"@ != "auto_restart_interval_hours"@,
        "main_password"@ != "admin_id"@,
        "main_password"@ != "bot_token"@,
        "main_password"@ != "logging_active"@,
        "main_device_id"@ != "dns"@,
        "main_device_id"@ != "auto_restart_interval_hours"@,
        "main_device_id"@ != "admin_id"@,
        "main_device_id"@ != "bot_token"@,
        "main_device_id"@ != "logging_active"@,
        "dns"@ != "auto_restart_interval_hours"@,
        "dns"@ != "admin_id"@,
        "dns"@ != "bot_token"@,
        "dns"@ != "logging_active"@,
        "auto_restart_interval_hours"@ != "admin_id"@,
        "auto_restart_interval_hours"@ != "bot_token"@,
        "auto_restart_interval_hours"@ != "logging_active"@,
{
    reveal_strlit("main_password");
    reveal_strlit("main_device_id");
    reveal_strlit("dns");
    reveal_strlit("auto_restart_interval_hours");
    reveal_strlit("admin_id");
    reveal_strlit("bot_token");
    reveal_strlit("logging_active");
    assert("main_password"@.len() == 13);
    assert("main_device_id"@.len() == 14);
    assert("dns"@.len() == 3);
    assert("auto_restart_interval_hours"@.len() == 27);
    assert("admin_id"@.len() == 8);
    assert("bot_token"@.len() == 9);
    assert("logging_active"@.len() == 14);
    assert("main_device_id"@[0] != "logging_active"@[0]);
}

/// Writing numbered devices leaves exactly them, without their runtime epochs.
proof fn lemma_written_devices(old_t: StoredTables, db: Database)
    requires
        db.wf(),
        numbered(db),
    ensures
        written_devices(
            rows_kept(device_views(old_t.devices@), |k: Seq<char>| db.devices@.contains_key(k)),
            db.devices.entries@,
        ) == epochs_cleared(device_views(db.devices@)),
{
    let es = db.devices.entries@;
    let keep = |k: Seq<char>| db.devices@.contains_key(k);
    let base = rows_kept(device_views(old_t.devices@), keep);
    let w = written_devices(base, es);
    let target = epochs_cleared(device_views(db.devices@));
    assert forall|k: Seq<char>| w.contains_key(k) <==> target.contains_key(k) by {
        lemma_written_devices_at(base, es, k);
        lemma_map_of_domain(es, k);
    }
    assert forall|k: Seq<char>| target.contains_key(k) implies w[k] == target[k] by {
        lemma_written_devices_at(base, es, k);
        lemma_map_of_domain(es, k);
        let i = choose|i: int| 0 <= i < es.len() && (#[trigger] es[i]).key@ == k;
        lemma_map_of_index(es, i);
        lemma_written_devices_value(base, es, i);
    }
    assert(w =~= target);
}

proof fn lemma_written_devices_at(
    base: Map<Seq<char>, DeviceView>,
    es: Seq<TextEntry<ClientDevice>>,
    k: Seq<char>,
)
    requires
        forall|i: int| 0 <= i < es.len() ==> (#[trigger] es[i]).value.device_id@ == es[i].key@,
    ensures
        written_devices(base, es).contains_key(k) <==> base.contains_key(k) || exists|i: int|
            0 <= i < es.len() && (#[trigger] es[i]).key@ == k,
    decreases es.len(),
{
    if es.len() > 0 {
        let d = es.drop_last();
        lemma_written_devices_at(base, d, k);
        assert(es[es.len() - 1].value.device_id@ == es[es.len() - 1].key@);
        if exists|i: int| 0 <= i < d.len() && (#[trigger] d[i]).key@ == k {
            let i = choose|i: int| 0 <= i < d.len() && (#[trigger] d[i]).key@ == k;
            assert(es[i].key@ == k);
        }
        if exists|i: int| 0 <= i < es.len() && (#[trigger] es[i]).key@ == k {
            let i = choose|i: int| 0 <= i < es.len() && (#[trigger] es[i]).key@ == k;
            if i < d.len() {
                assert(d[i].key@ == k);
            }
        }
    }
}

proof fn lemma_written_devices_value(
    base: Map<Seq<char>, DeviceView>,
    es: Seq<TextEntry<ClientDevice>>,
    i: int,
)
    requires
        keys_sorted(es),
        0 <= i < es.len(),
        forall|j: int| 0 <= j < es.len() ==> (#[trigger] es[j]).value.device_id@ == es[j].key@,
    ensures
        written_devices(base, es).contains_key(es[i].key@),
        written_devices(base, es)[es[i].key@] == stored_view(es[i].value),
    decreases es.len(),
{
    let d = es.drop_last();
    assert(es[es.len() - 1].value.device_id@ == es[es.len() - 1].key@);
    if i < es.len() - 1 {
        assert(keys_sorted(d)) by {
            assert forall|a: int, b: int|
                #![trigger d[a], d[b]]
                0 <= a < b < d.len() implies text_lt(d[a].key@, d[b].key@) by {
                assert(text_lt(es[a].key@, es[b].key@));
            }
        }
        lemma_written_devices_value(base, d, i);
        if es[i].key@ == es.last().key@ {
            lemma_keys_distinct(es, i, es.len() - 1);
        }
    }
}

/// The row of the profile at a position.
spec fn row_at(ps: Seq<LocalProxyProfile>, k: int) -> ProfileRow {
    ProfileRow { sort_order: k as i64, profile: ps[k] }
}

/// Whether a row is that of the profile at its own position.
spec fn is_row(r: ProfileRow, ps: Seq<LocalProxyProfile>) -> bool {
    0 <= r.sort_order < ps.len() && r.profile == ps[r.sort_order as int]
}

/// The rows of some entries.
spec fn values_of(es: Seq<TextEntry<ProfileRow>>) -> Seq<ProfileRow> {
    Seq::new(es.len(), |i: int| es[i].value)
}

/// Writing distinct profiles and reading the rows in order gives the profiles back.
proof fn lemma_written_rows_order(old_t: StoredTables, new_t: StoredTables, db: Database)
    requires
        new_t.wf(),
        numbered(db),
        db.local_proxy.profiles@.len() <= i64::MAX,
        snapshot_written(old_t, new_t, db),
    ensures
        profiles_of(rows_in_order(new_t.profiles.entries@)) == db.local_proxy.profiles@,
{
    let ps = db.local_proxy.profiles@;
    let es = new_t.profiles.entries@;
    let keep = |k: Seq<char>| profile_index(ps, k) is Some;
    let base = rows_kept(old_t.profiles@, keep);
    let rows = rows_in_order(es);
    let vals = values_of(es);
    // Every entry is the row of exactly one profile.
    assert forall|i: int| 0 <= i < es.len() implies is_row((#[trigger] es[i]).value, ps)
        && es[i].key@ == ps[es[i].value.sort_order as int].id@ by {
        lemma_map_of_index(es, i);
        let key = es[i].key@;
        lemma_written_profiles_at(base, ps, key);
        lemma_profile_index(ps, key);
        if base.contains_key(key) {
            assert(profile_index(ps, key) is Some);
        }
        let k = profile_index(ps, key).unwrap();
        lemma_written_profiles_value(base, ps, k);
        assert(es[i].value == row_at(ps, k));
    }
    // Every profile has an entry.
    assert forall|k: int| 0 <= k < ps.len() implies vals.contains(#[trigger] row_at(ps, k)) by {
        lemma_written_profiles_value(base, ps, k);
        lemma_map_of_domain(es, ps[k].id@);
        let i = choose|i: int| 0 <= i < es.len() && (#[trigger] es[i]).key@ == ps[k].id@;
        lemma_map_of_index(es, i);
        assert(vals[i] == row_at(ps, k));
    }
    // No two entries have one position.
    assert forall|i: int, j: int|
        #![trigger es[i], es[j]]
        0 <= i < j < es.len() implies es[i].value.sort_order != es[j].value.sort_order by {
        if es[i].value.sort_order == es[j].value.sort_order {
            lemma_keys_distinct(es, i, j);
        }
    }
    lemma_rows_sorted(es);
    assert forall|x: int| 0 <= x < rows.len() implies is_row(#[trigger] rows[x], ps) by {
        assert(rows.contains(rows[x]));
        assert(vals.contains(rows[x]));
        let i = choose|i: int| 0 <= i < vals.len() && vals[i] == rows[x];
        assert(is_row(es[i].value, ps));
    }
    assert forall|k: int| 0 <= k < ps.len() implies rows.contains(#[trigger] row_at(ps, k)) by {
        assert(vals.contains(row_at(ps, k)));
    }
    lemma_positions(rows, ps);
    assert(profiles_of(rows) =~= ps);
}

/// Rows that are strictly in order and stand for the positions from zero on are the
/// profiles in their order.
proof fn lemma_positions(rows: Seq<ProfileRow>, ps: Seq<LocalProxyProfile>)
    requires
        ps.len() <= i64::MAX,
        forall|i: int, j: int|
            #![trigger rows[i], rows[j]]
            0 <= i < j < rows.len() ==> rows[i].sort_order < rows[j].sort_order,
        forall|x: int| 0 <= x < rows.len() ==> is_row(#[trigger] rows[x], ps),
        forall|k: int| 0 <= k < ps.len() ==> rows.contains(#[trigger] row_at(ps, k)),
    ensures
        rows.len() == ps.len(),
        forall|x: int| 0 <= x < rows.len() ==> (#[trigger] rows[x]).profile == ps[x],
{
    assert forall|x: int| 0 <= x < rows.len() implies (#[trigger] rows[x]).sort_order >= x by {
        assert(is_row(rows[0], ps));
        lemma_position_at_least(rows, x);
    }
    assert forall|x: int| 0 <= x < rows.len() implies x < ps.len() && (
    #[trigger] rows[x]).sort_order == x by {
        assert(is_row(rows[x], ps));
        lemma_position_exact(rows, ps, x);
    }
    if rows.len() > ps.len() {
        assert(is_row(rows[rows.len() - 1], ps));
        assert(rows[rows.len() - 1].sort_order >= rows.len() - 1);
    }
    if rows.len() < ps.len() {
        lemma_position_exact(rows, ps, rows.len() as int);
    }
    assert forall|x: int| 0 <= x < rows.len() implies (#[trigger] rows[x]).profile == ps[x] by {
        assert(is_row(rows[x], ps));
    }
}

proof fn lemma_position_at_least(rows: Seq<ProfileRow>, x: int)
    requires
        0 <= x < rows.len(),
        forall|i: int, j: int|
            #![trigger rows[i], rows[j]]
            0 <= i < j < rows.len() ==> rows[i].sort_order < rows[j].sort_order,
        rows[0].sort_order >= 0,
    ensures
        rows[x].sort_order >= x,
    decreases x,
{
    if x > 0 {
        lemma_position_at_least(rows, x - 1);
        assert(rows[x - 1].sort_order < rows[x].sort_order);
    }
}

proof fn lemma_position_exact(rows: Seq<ProfileRow>, ps: Seq<LocalProxyProfile>, k: int)
    requires
        0 <= k < ps.len(),
        ps.len() <= i64::MAX,
        forall|i: int, j: int|
            #![trigger rows[i], rows[j]]
            0 <= i < j < rows.len() ==> rows[i].sort_order < rows[j].sort_order,
        forall|x: int| 0 <= x < rows.len() ==> (#[trigger] rows[x]).sort_order >= x,
        forall|n: int| 0 <= n < ps.len() ==> rows.contains(#[trigger] row_at(ps, n)),
    ensures
        k < rows.len(),
        rows[k].sort_order == k,
    decreases k,
{
    assert(rows.contains(row_at(ps, k)));
    let x = choose|x: int| 0 <= x < rows.len() && rows[x] == row_at(ps, k);
    assert(rows[x].sort_order == k);
    if x < k {
        // The row at index x stands for position x, not for position k.
        lemma_position_exact(rows, ps, x);
    }
}

/// The rows in order hold exactly the entries' rows, in strictly increasing order where
/// no two entries have one position.
proof fn lemma_rows_sorted(es: Seq<TextEntry<ProfileRow>>)
    requires
        forall|i: int, j: int|
            #![trigger es[i], es[j]]
            0 <= i < j < es.len() ==> es[i].value.sort_order != es[j].value.sort_order,
    ensures
        forall|i: int, j: int|
            #![trigger rows_in_order(es)[i], rows_in_order(es)[j]]
            0 <= i < j < rows_in_order(es).len() ==> rows_in_order(es)[i].sort_order
                < rows_in_order(es)[j].sort_order,
        forall|r: ProfileRow| #[trigger]
            rows_in_order(es).contains(r) ==> values_of(es).contains(r),
        forall|r: ProfileRow| #[trigger]
            values_of(es).contains(r) ==> rows_in_order(es).contains(r),
    decreases es.len(),
{
    let vals = values_of(es);
    let after = rows_in_order(es);
    if es.len() > 0 {
        let d = es.drop_last();
        assert forall|i: int, j: int|
            #![trigger d[i], d[j]]
            0 <= i < j < d.len() implies d[i].value.sort_order != d[j].value.sort_order by {
            assert(es[i].value.sort_order != es[j].value.sort_order);
        }
        lemma_rows_sorted(d);
        let dv = values_of(d);
        let before = rows_in_order(d);
        let row = es.last().value;
        let p = row_position(before, row.sort_order);
        lemma_row_position(before, row.sort_order);
        assert(after == before.insert(p, row));
        assert(vals =~= dv.push(row));
        assert forall|x: int| 0 <= x < before.len() implies (#[trigger] before[x]).sort_order
            != row.sort_order by {
            assert(before.contains(before[x]));
            assert(dv.contains(before[x]));
            let i = choose|i: int| 0 <= i < dv.len() && dv[i] == before[x];
            assert(es[i].value.sort_order != es[es.len() - 1].value.sort_order);
        }
        lemma_insert_sorted(before, p, row);
        assert forall|r: ProfileRow| #[trigger] after.contains(r) implies vals.contains(r) by {
            let x = choose|x: int| 0 <= x < after.len() && after[x] == r;
            if x == p {
                assert(vals[vals.len() - 1] == r);
            } else {
                let b = if x < p {
                    x
                } else {
                    x - 1
                };
                assert(before[b] == r);
                assert(before.contains(r));
                assert(dv.contains(r));
                let i = choose|i: int| 0 <= i < dv.len() && dv[i] == r;
                assert(vals[i] == r);
            }
        }
        assert forall|r: ProfileRow| #[trigger] vals.contains(r) implies after.contains(r) by {
            let i = choose|i: int| 0 <= i < vals.len() && vals[i] == r;
            if i == vals.len() - 1 {
                assert(after[p] == r);
            } else {
                assert(dv[i] == r);
                assert(dv.contains(r));
                assert(before.contains(r));
                let b = choose|b: int| 0 <= b < before.len() && before[b] == r;
                if b < p {
                    assert(after[b] == r);
                } else {
                    assert(after[b + 1] == r);
                }
            }
        }
    } else {
        assert(after =~= Seq::<ProfileRow>::empty());
    }
}

proof fn lemma_insert_sorted(before: Seq<ProfileRow>, p: int, row: ProfileRow)
    requires
        0 <= p <= before.len(),
        forall|i: int, j: int|
            #![trigger before[i], before[j]]
            0 <= i < j < before.len() ==> before[i].sort_order < before[j].sort_order,
        forall|i: int| 0 <= i < p ==> (#[trigger] before[i]).sort_order < row.sort_order,
        forall|i: int| p <= i < before.len() ==> (#[trigger] before[i]).sort_order > row.sort_order,
    ensures
        forall|i: int, j: int|
            #![trigger before.insert(p, row)[i], before.insert(p, row)[j]]
            0 <= i < j < before.len() + 1 ==> before.insert(p, row)[i].sort_order < before.insert(
                p,
                row,
            )[j].sort_order,
{
    let after = before.insert(p, row);
    assert forall|i: int, j: int|
        #![trigger after[i], after[j]]
        0 <= i < j < before.len() + 1 implies after[i].sort_order < after[j].sort_order by {
        if j < p {
            assert(before[i].sort_order < before[j].sort_order);
        } else if j == p {
            assert(before[i].sort_order < row.sort_order);
        } else if i < p {
            assert(before[i].sort_order < before[j - 1].sort_order);
        } else if i == p {
            assert(before[j - 1].sort_order > row.sort_order);
        } else {
            assert(before[i - 1].sort_order < before[j - 1].sort_order);
        }
    }
}

/// Where a row belongs: behind everything that is not greater, before the rest.
proof fn lemma_row_position(rows: Seq<ProfileRow>, order: i64)
    requires
        forall|i: int, j: int|
            #![trigger rows[i], rows[j]]
            0 <= i < j < rows.len() ==> rows[i].sort_order < rows[j].sort_order,
    ensures
        0 <= row_position(rows, order) <= rows.len(),
        forall|i: int|
            0 <= i < row_position(rows, order) ==> (#[trigger] rows[i]).sort_order <= order,
        forall|i: int|
            row_position(rows, order) <= i < rows.len() ==> (#[trigger] rows[i]).sort_order
                > order,
    decreases rows.len(),
{
    if rows.len() > 0 {
        if rows.last().sort_order <= order {
            assert forall|i: int| 0 <= i < rows.len() implies (#[trigger] rows[i]).sort_order
                <= order by {
                if i < rows.len() - 1 {
                    assert(rows[i].sort_order < rows[rows.len() - 1].sort_order);
                }
            }
        } else {
            let d = rows.drop_last();
            assert forall|i: int, j: int|
                #![trigger d[i], d[j]]
                0 <= i < j < d.len() implies d[i].sort_order < d[j].sort_order by {
                assert(rows[i].sort_order < rows[j].sort_order);
            }
            lemma_row_position(d, order);
            assert forall|i: int| 0 <= i < row_position(rows, order) implies (
            #[trigger] rows[i]).sort_order <= order by {
                assert(d[i] == rows[i]);
            }
            assert forall|i: int| row_position(rows, order) <= i < rows.len() implies (
            #[trigger] rows[i]).sort_order > order by {
                if i < d.len() {
                    assert(d[i] == rows[i]);
                }
            }
        }
    }
}

proof fn lemma_written_profiles_at(
    base: Map<Seq<char>, ProfileRow>,
    ps: Seq<LocalProxyProfile>,
    k: Seq<char>,
)
    ensures
        written_profiles(base, ps).contains_key(k) <==> base.contains_key(k) || profile_index(
            ps,
            k,
        ) is Some,
    decreases ps.len(),
{
    if ps.len() > 0 {
        lemma_written_profiles_at(base, ps.drop_last(), k);
    }
}

proof fn lemma_written_profiles_value(
    base: Map<Seq<char>, ProfileRow>,
    ps: Seq<LocalProxyProfile>,
    k: int,
)
    requires
        0 <= k < ps.len(),
        ps.len() <= i64::MAX,
        forall|i: int, j: int|
            0 <= i < j < ps.len() ==> (#[trigger] ps[i]).id@ != (#[trigger] ps[j]).id@,
    ensures
        written_profiles(base, ps).contains_key(ps[k].id@),
        written_profiles(base, ps)[ps[k].id@] == (ProfileRow {
            sort_order: k as i64,
            profile: ps[k],
        }),
    decreases ps.len(),
{
    if k < ps.len() - 1 {
        let d = ps.drop_last();
        assert forall|i: int, j: int| 0 <= i < j < d.len() implies (#[trigger] d[i]).id@ != (
        #[trigger] d[j]).id@ by {
            assert(ps[i].id@ != ps[j].id@);
        }
        lemma_written_profiles_value(base, d, k);
        assert(ps[k].id@ != ps[ps.len() - 1].id@);
    }
}

/// The profile that the tables select; the empty text where they select none.
pub open spec fn selected_profile(t: StoredTables) -> Seq<char> {
    match t.active_profile_id {
        Some(id) => id@,
        None => Seq::empty(),
    }
}

/// An import selects the retired database's profile where the tables selected none, and
/// leaves a selection that is there alone.
pub proof fn law_import_takes_over_the_selection(
    old_t: StoredTables,
    new_t: StoredTables,
    legacy: Database,
)
    requires
        legacy_imported(old_t, new_t, legacy),
    ensures
        selected_profile(old_t).len() > 0 ==> selected_profile(new_t) == selected_profile(old_t),
        selected_profile(old_t).len() == 0 ==> selected_profile(new_t)
            == legacy.local_proxy.active_profile_id@,
        legacy.local_proxy.active_profile_id@.len() > 0 ==> selected_profile(new_t).len() > 0,
{
}

/// An import brings each of the three texts that is missing or empty, and whether logging
/// was on where that is not known; no other setting appears or changes.
pub proof fn law_import_fills_the_settings(
    old_t: StoredTables,
    new_t: StoredTables,
    legacy: Database,
    key: Seq<char>,
)
    requires
        legacy_imported(old_t, new_t, legacy),
    ensures
        meta_or_empty(old_t.meta@, "dns"@).len() == 0 ==> meta_text(new_t.meta@, "dns"@) == Some(
            legacy.dns@,
        ),
        meta_or_empty(old_t.meta@, "main_device_id"@).len() == 0 ==> meta_text(
            new_t.meta@,
            "main_device_id"@,
        ) == Some(legacy.main_device_id@),
        meta_or_empty(old_t.meta@, "main_password"@).len() == 0 ==> meta_text(
            new_t.meta@,
            "main_password"@,
        ) == Some(legacy.main_password@),
        meta_text(old_t.meta@, "logging_active"@) is None ==> meta_text(
            new_t.meta@,
            "logging_active"@,
        ) == match legacy.logging_active {
            Some(true) => Some("1"@),
            Some(false) => Some("0"@),
            None => None,
        },
        meta_text(old_t.meta@, "logging_active"@) is Some ==> meta_text(
            new_t.meta@,
            "logging_active"@,
        ) == meta_text(old_t.meta@, "logging_active"@),
        key != "dns"@ && key != "main_device_id"@ && key != "main_password"@ && key
            != "logging_active"@ ==> meta_text(new_t.meta@, key) == meta_text(old_t.meta@, key),
{
    reveal_strlit("dns");
    reveal_strlit("main_device_id");
    reveal_strlit("main_password");
    reveal_strlit("logging_active");
    assert("main_device_id"@.len() != "main_password"@.len());
    assert("main_device_id"@.len() == "logging_active"@.len());
    assert("main_device_id"@[0] != "logging_active"@[0]);
    assert("dns"@.len() != "main_password"@.len());
    assert("dns"@.len() != "main_device_id"@.len());
    assert("main_password"@.len() != "logging_active"@.len());
    assert(meta_text(new_t.meta@, "dns"@) == imported_meta(old_t.meta@, legacy, "dns"@));
    assert(meta_text(new_t.meta@, "main_device_id"@) == imported_meta(
        old_t.meta@,
        legacy,
        "main_device_id"@,
    ));
    assert(meta_text(new_t.meta@, "main_password"@) == imported_meta(
        old_t.meta@,
        legacy,
        "main_password"@,
    ));
    assert(meta_text(new_t.meta@, "logging_active"@) == imported_meta(
        old_t.meta@,
        legacy,
        "logging_active"@,
    ));
    assert(meta_text(new_t.meta@, key) == imported_meta(old_t.meta@, legacy, key));
}

/// An import never lowers a counter: each becomes the larger of the two, and the retired
/// one where there was none.
pub proof fn law_import_keeps_the_larger_counters(
    old_t: StoredTables,
    new_t: StoredTables,
    legacy: Database,
)
    requires
        legacy_imported(old_t, new_t, legacy),
    ensures
        new_t.counters matches Some(now) && {
            &&& now.up_bytes >= legacy.main_up_bytes && now.down_bytes >= legacy.main_down_bytes
            &&& old_t.counters matches Some(c) ==> {
                &&& now.up_bytes >= c.up_bytes && now.down_bytes >= c.down_bytes
                &&& now.up_bytes == c.up_bytes || now.up_bytes == legacy.main_up_bytes
                &&& now.down_bytes == c.down_bytes || now.down_bytes == legacy.main_down_bytes
            }
            &&& old_t.counters is None ==> now.up_bytes == legacy.main_up_bytes && now.down_bytes
                == legacy.main_down_bytes
        },
{
}

/// What an import adds is what the retired database holds: a password row as it stands, a
/// device with its keys, its address, its counters and its password but without the
/// session it last had, a profile at its place in the list. Nothing else is added.
pub proof fn law_import_adds_the_rows_themselves(
    old_t: StoredTables,
    new_t: StoredTables,
    legacy: Database,
    key: Seq<char>,
    i: int,
)
    requires
        legacy_imported(old_t, new_t, legacy),
    ensures
        legacy.passwords@.contains_key(key) && !old_t.passwords@.contains_key(key)
            ==> new_t.passwords@[key] == legacy.passwords@[key],
        new_t.passwords@.contains_key(key) ==> old_t.passwords@.contains_key(key)
            || legacy.passwords@.contains_key(key),
        0 <= i < legacy.devices.entries@.len() && legacy.devices.entries@[i].value.device_id@ == key
            && !old_t.devices@.contains_key(key) && (forall|j: int|
            0 <= j < i ==> (#[trigger] legacy.devices.entries@[j]).value.device_id@ != key) ==> {
            let d = legacy.devices.entries@[i].value;
            let n = new_t.devices@[key];
            &&& new_t.devices@.contains_key(key)
            &&& n.device_id@ == key
            &&& n.ip@ == d.ip@
            &&& n.priv_key@ == d.priv_key@
            &&& n.pub_key@ == d.pub_key@
            &&& n.up_bytes == d.up_bytes
            &&& n.down_bytes == d.down_bytes
            &&& n.bound_password@ == d.bound_password@
            &&& n.last_session_salt@.len() == 0
            &&& n.last_generation_id == 0
        },
        0 <= i < legacy.local_proxy.profiles@.len() && legacy.local_proxy.profiles@[i].id@ == key
            && !old_t.profiles@.contains_key(key) && (forall|j: int|
            0 <= j < i ==> (#[trigger] legacy.local_proxy.profiles@[j]).id@ != key) ==> {
            &&& new_t.profiles@.contains_key(key)
            &&& new_t.profiles@[key].profile == legacy.local_proxy.profiles@[i]
            &&& new_t.profiles@[key].sort_order == i as i64
        },
{
    let ds = legacy.devices.entries@;
    let ps = legacy.local_proxy.profiles@;
    if 0 <= i < ds.len() && ds[i].value.device_id@ == key && !old_t.devices@.contains_key(key) && (
    forall|j: int| 0 <= j < i ==> (#[trigger] ds[j]).value.device_id@ != key) {
        lemma_imported_device_first(device_views(old_t.devices@), ds, i);
        assert(device_views(new_t.devices@).contains_key(key));
        assert(device_views(new_t.devices@)[key] == device_view(new_t.devices@[key]));
    }
    if 0 <= i < ps.len() && ps[i].id@ == key && !old_t.profiles@.contains_key(key) && (forall|j: int|
        0 <= j < i ==> (#[trigger] ps[j]).id@ != key) {
        lemma_imported_profile_first(old_t.profiles@, ps, i);
    }
}

/// The first device with a number gives the row.
proof fn lemma_imported_device_first(
    rows: Map<Seq<char>, DeviceView>,
    entries: Seq<TextEntry<ClientDevice>>,
    i: int,
)
    requires
        0 <= i < entries.len(),
        !rows.contains_key(entries[i].value.device_id@),
        forall|j: int|
            0 <= j < i ==> (#[trigger] entries[j]).value.device_id@ != entries[i].value.device_id@,
    ensures
        imported_devices(rows, entries).contains_key(entries[i].value.device_id@),
        imported_devices(rows, entries)[entries[i].value.device_id@] == stored_view(
            entries[i].value,
        ),
    decreases entries.len(),
{
    let id = entries[i].value.device_id@;
    let before = entries.drop_last();
    if i < entries.len() - 1 {
        lemma_imported_device_first(rows, before, i);
    } else {
        lemma_no_imported_device(rows, before, id);
    }
}

/// A number that neither the rows nor the devices have is not imported.
proof fn lemma_no_imported_device(
    rows: Map<Seq<char>, DeviceView>,
    entries: Seq<TextEntry<ClientDevice>>,
    key: Seq<char>,
)
    requires
        !rows.contains_key(key),
        forall|j: int| 0 <= j < entries.len() ==> (#[trigger] entries[j]).value.device_id@ != key,
    ensures
        !imported_devices(rows, entries).contains_key(key),
    decreases entries.len(),
{
    if entries.len() > 0 {
        let before = entries.drop_last();
        assert forall|j: int| 0 <= j < before.len() implies (#[trigger] before[j]).value.device_id@
            != key by {
            assert(before[j] == entries[j]);
        }
        assert(entries[entries.len() - 1].value.device_id@ != key);
        lemma_no_imported_device(rows, before, key);
    }
}

/// The first profile with an id gives the row.
proof fn lemma_imported_profile_first(
    rows: Map<Seq<char>, ProfileRow>,
    profiles: Seq<LocalProxyProfile>,
    i: int,
)
    requires
        0 <= i < profiles.len(),
        !rows.contains_key(profiles[i].id@),
        forall|j: int| 0 <= j < i ==> (#[trigger] profiles[j]).id@ != profiles[i].id@,
    ensures
        imported_profiles(rows, profiles).contains_key(profiles[i].id@),
        imported_profiles(rows, profiles)[profiles[i].id@] == (ProfileRow {
            sort_order: i as i64,
            profile: profiles[i],
        }),
    decreases profiles.len(),
{
    let before = profiles.drop_last();
    if i < profiles.len() - 1 {
        lemma_imported_profile_first(rows, before, i);
    } else {
        lemma_no_imported_profile(rows, before, profiles[i].id@);
    }
}

/// An id that neither the rows nor the profiles have is not imported.
proof fn lemma_no_imported_profile(
    rows: Map<Seq<char>, ProfileRow>,
    profiles: Seq<LocalProxyProfile>,
    key: Seq<char>,
)
    requires
        !rows.contains_key(key),
        forall|j: int| 0 <= j < profiles.len() ==> (#[trigger] profiles[j]).id@ != key,
    ensures
        !imported_profiles(rows, profiles).contains_key(key),
    decreases profiles.len(),
{
    if profiles.len() > 0 {
        let before = profiles.drop_last();
        assert forall|j: int| 0 <= j < before.len() implies (#[trigger] before[j]).id@ != key by {
            assert(before[j] == profiles[j]);
        }
        assert(profiles[profiles.len() - 1].id@ != key);
        lemma_no_imported_profile(rows, before, key);
    }
}

/// Writing traffic changes counters and nothing else: a row that the snapshot names gets
/// its two counters, each in its own direction, and any other row stays as it is.
pub proof fn law_traffic_changes_counters_only(
    passwords: Map<Seq<char>, PasswordEntry>,
    devices: Map<Seq<char>, ClientDevice>,
    counters: Map<Seq<char>, TrafficCounters>,
    key: Seq<char>,
)
    ensures
        password_counters(passwords, counters).contains_key(key) <==> passwords.contains_key(key),
        device_counters(devices, counters).contains_key(key) <==> devices.contains_key(key),
        passwords.contains_key(key) ==> {
            let row = password_counters(passwords, counters)[key];
            &&& counters.contains_key(key) ==> row.up_bytes == counters[key].up_bytes
                && row.down_bytes == counters[key].down_bytes
            &&& !counters.contains_key(key) ==> row == passwords[key]
            &&& row == (PasswordEntry {
                up_bytes: row.up_bytes,
                down_bytes: row.down_bytes,
                ..passwords[key]
            })
        },
        devices.contains_key(key) ==> {
            let row = device_counters(devices, counters)[key];
            &&& counters.contains_key(key) ==> row.up_bytes == counters[key].up_bytes
                && row.down_bytes == counters[key].down_bytes
            &&& !counters.contains_key(key) ==> row == devices[key]
            &&& row == (ClientDevice {
                up_bytes: row.up_bytes,
                down_bytes: row.down_bytes,
                ..devices[key]
            })
        },
{
}

/// After a restart no device has a session left over, and that is all a reset changes.
pub proof fn law_reset_forgets_sessions_only(rows: Map<Seq<char>, DeviceView>, key: Seq<char>)
    ensures
        epochs_cleared(rows).contains_key(key) <==> rows.contains_key(key),
        rows.contains_key(key) ==> {
            let row = epochs_cleared(rows)[key];
            &&& row.last_session_salt.len() == 0
            &&& row.last_generation_id == 0
            &&& row.device_id == rows[key].device_id
            &&& row.ip == rows[key].ip
            &&& row.priv_key == rows[key].priv_key
            &&& row.pub_key == rows[key].pub_key
            &&& row.up_bytes == rows[key].up_bytes
            &&& row.down_bytes == rows[key].down_bytes
            &&& row.bound_password == rows[key].bound_password
        },
{
}

/// Rows match where they let in the same client in the same way; traffic since then, and
/// for a device the session, makes no difference.
pub proof fn law_matching_ignores_traffic(
    a: PasswordEntry,
    b: PasswordEntry,
    d: ClientDevice,
    e: ClientDevice,
    up_bytes: i64,
    down_bytes: i64,
)
    ensures
        passwords_match(a, PasswordEntry { up_bytes, down_bytes, ..a }),
        passwords_match(a, b) <==> passwords_match(b, a),
        passwords_match(a, b) ==> a.device_id@ == b.device_id@ && a.expires_at == b.expires_at
            && a.vk_hash@ == b.vk_hash@ && a.ports@ == b.ports@ && a.is_deactivated
            == b.is_deactivated && a.name@ == b.name@ && a.vk_hashes@ == b.vk_hashes@
            && a.dtls_port == b.dtls_port && a.wg_port == b.wg_port && a.local_port
            == b.local_port,
        devices_match(
            d,
            ClientDevice {
                up_bytes,
                down_bytes,
                last_session_salt: e.last_session_salt,
                last_generation_id: e.last_generation_id,
                ..d
            },
        ),
        devices_match(d, e) <==> devices_match(e, d),
        devices_match(d, e) ==> d.device_id@ == e.device_id@ && d.ip@ == e.ip@ && d.priv_key@
            == e.priv_key@ && d.pub_key@ == e.pub_key@ && d.bound_password@ == e.bound_password@,
{
}

/// A retired database is kept for as long as something in it is not in the tables: two
/// main passwords or devices that differ, a password or a device that is missing or has
/// other data. Where all is there, it may go.
pub proof fn law_verdict_covers_every_row(
    sqlite: Database,
    legacy: Database,
    r: Result<(), LegacyConflict>,
    i: int,
)
    requires
        legacy_verdict(sqlite, legacy, r),
    ensures
        legacy.main_password@.len() > 0 && sqlite.main_password@.len() > 0 && legacy.main_password@
            != sqlite.main_password@ ==> r == Err::<(), LegacyConflict>(
            LegacyConflict::MainPassword,
        ),
        r is Ok && legacy.main_device_id@.len() > 0 && sqlite.main_device_id@.len() > 0
            ==> legacy.main_device_id@ == sqlite.main_device_id@,
        r is Ok && 0 <= i < legacy.passwords.entries@.len() ==> {
            let e = legacy.passwords.entries@[i];
            sqlite.passwords@.contains_key(e.key@) && passwords_match(
                sqlite.passwords@[e.key@],
                e.value,
            )
        },
        r is Ok && 0 <= i < legacy.devices.entries@.len() ==> {
            let e = legacy.devices.entries@[i];
            sqlite.devices@.contains_key(e.key@) && devices_match(
                sqlite.devices@[e.key@],
                e.value,
            )
        },
        r matches Err(LegacyConflict::PasswordMissing(name)) ==> !sqlite.passwords@.contains_key(
            name@,
        ),
        r matches Err(LegacyConflict::PasswordConflict(name)) ==> sqlite.passwords@.contains_key(
            name@,
        ),
        r matches Err(LegacyConflict::DeviceMissing(name)) ==> !sqlite.devices@.contains_key(name@),
        r matches Err(LegacyConflict::DeviceConflict(name)) ==> sqlite.devices@.contains_key(name@),
        legacy.main_password@.len() == 0 && legacy.main_device_id@.len() == 0
            && legacy.passwords.entries@.len() == 0 && legacy.devices.entries@.len() == 0
            ==> r is Ok,
{
}

/// Loading brings a retired database in: the tables are those from before, without left-over
/// sessions, and the import into them.
pub proof fn law_load_imports_retired_databases(
    before: StoredTables,
    after: StoredTables,
    legacy: Database,
    r: Result<Database, LegacyConflict>,
)
    requires
        database_loaded(before, after, seq![legacy], r),
    ensures
        exists|cleared: StoredTables|
            #![trigger legacy_imported(cleared, after, legacy)]
            legacy_imported(cleared, after, legacy) && cleared.meta == before.meta
                && cleared.counters == before.counters && cleared.passwords == before.passwords
                && cleared.profiles == before.profiles && cleared.active_profile_id
                == before.active_profile_id && device_views(cleared.devices@) == epochs_cleared(
                device_views(before.devices@),
            ),
        r matches Ok(db) ==> snapshot_read(after, db) && legacy_consistent(db, legacy),
        r matches Err(conflict) ==> exists|db: Database| #[trigger]
            snapshot_read(after, db) && legacy_verdict(db, legacy, Err(conflict)),
{
    let legacies = seq![legacy];
    let steps = choose|steps: Seq<StoredTables>| #[trigger]
        import_chain(steps, legacies) && same_but_devices(before, steps[0]) && device_views(
            steps[0].devices@,
        ) == epochs_cleared(device_views(before.devices@)) && steps.last() == after;
    assert(legacies[0] == legacy);
    assert(steps[1] == after);
    assert(legacy_imported(steps[0], steps[1], legacies[0]));
    if let Ok(db) = r {
        assert(legacy_consistent(db, legacies[0]));
    }
    if let Err(conflict) = r {
        let (db, i) = choose|db: Database, i: int|
            #![trigger legacy_verdict(db, legacies[i], Err(conflict))]
            {
                &&& snapshot_read(after, db)
                &&& 0 <= i < legacies.len()
                &&& forall|k: int| 0 <= k < i ==> legacy_consistent(db, #[trigger] legacies[k])
                &&& !legacy_consistent(db, legacies[i])
                &&& legacy_verdict(db, legacies[i], Err(conflict))
            };
        assert(legacies[i] == legacy);
    }
}

/// Whether a text is what is said of a conflict.
pub open spec fn conflict_words(c: LegacyConflict, text: Seq<char>) -> bool {
    &&& c is MainPassword ==> text
        == "legacy main password conflicts with existing SQLite state"@
    &&& c is MainDevice ==> text
        == "legacy main device conflicts with existing SQLite state"@
    &&& c matches LegacyConflict::PasswordMissing(name) ==> text == row_message(
        "legacy password "@,
        name@,
        " is missing after import"@,
    )
    &&& c matches LegacyConflict::PasswordConflict(name) ==> text == row_message(
        "legacy password "@,
        name@,
        " conflicts with existing SQLite state"@,
    )
    &&& c matches LegacyConflict::DeviceMissing(name) ==> text == row_message(
        "legacy device "@,
        name@,
        " is missing after import"@,
    )
    &&& c matches LegacyConflict::DeviceConflict(name) ==> text == row_message(
        "legacy device "@,
        name@,
        " conflicts with existing SQLite state"@,
    )
}

/// What is said of a conflict names the row between its kind and what is wrong with it.
pub proof fn law_conflicts_name_their_rows(c: LegacyConflict, text: Seq<char>)
    requires
        conflict_words(c, text),
    ensures
        (c matches LegacyConflict::PasswordMissing(name) ==> text == "legacy password "@ + name@
            + " is missing after import"@),
        (c matches LegacyConflict::PasswordConflict(name) ==> text == "legacy password "@ + name@
            + " conflicts with existing SQLite state"@),
        (c matches LegacyConflict::DeviceMissing(name) ==> text == "legacy device "@ + name@
            + " is missing after import"@),
        (c matches LegacyConflict::DeviceConflict(name) ==> text == "legacy device "@ + name@
            + " conflicts with existing SQLite state"@),
        c is MainPassword ==> text == "legacy main password conflicts with existing SQLite state"@,
        c is MainDevice ==> text == "legacy main device conflicts with existing SQLite state"@,
{
}

/// Texts conflict where both are there and differ; a missing one never conflicts.
pub proof fn law_missing_texts_do_not_conflict(a: Seq<char>, b: Seq<char>)
    ensures
        !texts_conflict(a, a),
        !texts_conflict(a, Seq::empty()) && !texts_conflict(Seq::empty(), b),
        texts_conflict(a, b) == texts_conflict(b, a),
        a != b && a.len() > 0 && b.len() > 0 ==> texts_conflict(a, b),
{
}

} // verus!
