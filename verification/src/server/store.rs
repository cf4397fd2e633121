//! The stored tables: how a database is written to them, read back from them, and how
//! databases of the retired file format are merged into them.
use vstd::prelude::*;
use crate::server::model::{
    ClientDevice, DEFAULT_AUTO_RESTART_INTERVAL_HOURS, Database, LocalProxyProfile, LocalProxyState,
    PasswordEntry, profile_index, valid_active, with_ports,
};
use crate::server::persistence::TrafficCounters;
use crate::text::{
    chars_of, dec, decimal, parse_number, parse_unsigned, same_text, string_of, views,
};
use crate::text_map::{TextEntry, TextMap, lemma_map_of_index, map_of};

verus! {

/// A row of the proxy profile table.
#[derive(Debug)]
pub struct ProfileRow {
    pub sort_order: i64,
    pub profile: LocalProxyProfile,
}

/// The rows of all tables, keyed by their primary keys.
#[derive(Debug)]
pub struct StoredTables {
    pub meta: TextMap<String>,
    pub counters: Option<TrafficCounters>,
    pub passwords: TextMap<PasswordEntry>,
    pub devices: TextMap<ClientDevice>,
    pub profiles: TextMap<ProfileRow>,
    pub active_profile_id: Option<String>,
}

/// A device with its texts as sequences.
pub ghost struct DeviceView {
    pub device_id: Seq<char>,
    pub ip: Seq<char>,
    pub priv_key: Seq<char>,
    pub pub_key: Seq<char>,
    pub up_bytes: i64,
    pub down_bytes: i64,
    pub bound_password: Seq<char>,
    pub last_session_salt: Seq<char>,
    pub last_generation_id: u64,
}

/// The view of a device.
pub open spec fn device_view(d: ClientDevice) -> DeviceView {
    DeviceView {
        device_id: d.device_id@,
        ip: d.ip@,
        priv_key: d.priv_key@,
        pub_key: d.pub_key@,
        up_bytes: d.up_bytes,
        down_bytes: d.down_bytes,
        bound_password: d.bound_password@,
        last_session_salt: d.last_session_salt@,
        last_generation_id: d.last_generation_id,
    }
}

/// A device as it is stored: without its runtime epoch.
pub open spec fn stored_view(d: ClientDevice) -> DeviceView {
    DeviceView {
        last_session_salt: Seq::empty(),
        last_generation_id: 0,
        ..device_view(d)
    }
}

/// The views of the devices of a map.
pub open spec fn device_views(m: Map<Seq<char>, ClientDevice>) -> Map<Seq<char>, DeviceView> {
    Map::new(|k: Seq<char>| m.contains_key(k), |k: Seq<char>| device_view(m[k]))
}

/// The text of a setting.
pub open spec fn meta_text(m: Map<Seq<char>, String>, key: Seq<char>) -> Option<Seq<char>> {
    if m.contains_key(key) {
        Some(m[key]@)
    } else {
        None
    }
}

/// The text of a setting, empty where it is not there.
pub open spec fn meta_or_empty(m: Map<Seq<char>, String>, key: Seq<char>) -> Seq<char> {
    match meta_text(m, key) {
        Some(text) => text,
        None => Seq::empty(),
    }
}

/// The text by which a flag is stored.
pub open spec fn flag_text(active: bool) -> Seq<char> {
    if active {
        "1"@
    } else {
        "0"@
    }
}

/// The text by which a flag is stored.
pub fn flag_string(active: bool) -> (r: String)
    ensures
        r@ == flag_text(active),
{
    if active {
        "1".to_owned()
    } else {
        "0".to_owned()
    }
}

impl StoredTables {
    /// Rows in order, each under its own primary key.
    pub open spec fn wf(&self) -> bool {
        &&& self.meta.wf()
        &&& self.passwords.wf()
        &&& self.devices.wf()
        &&& self.profiles.wf()
        &&& forall|k: Seq<char>| #[trigger]
            self.devices@.contains_key(k) ==> self.devices@[k].device_id@ == k
        &&& forall|k: Seq<char>| #[trigger]
            self.profiles@.contains_key(k) ==> self.profiles@[k].profile.id@ == k
    }

    /// Tables without rows.
    pub fn new() -> (r: Self)
        ensures
            r.wf(),
            r.meta@ == Map::<Seq<char>, String>::empty(),
            r.counters is None,
            r.passwords@ == Map::<Seq<char>, PasswordEntry>::empty(),
            r.devices@ == Map::<Seq<char>, ClientDevice>::empty(),
            r.profiles@ == Map::<Seq<char>, ProfileRow>::empty(),
            r.active_profile_id is None,
    {
        StoredTables {
            meta: TextMap::new(),
            counters: None,
            passwords: TextMap::new(),
            devices: TextMap::new(),
            profiles: TextMap::new(),
            active_profile_id: None,
        }
    }
}

// ---------------------------------------------------------------------------
// Writing
// ---------------------------------------------------------------------------

/// The settings after a database was written over `old`.
pub open spec fn written_meta(
    old_m: Map<Seq<char>, String>,
    db: Database,
    key: Seq<char>,
) -> Option<Seq<char>> {
    if key == "logging_active"@ {
        match db.logging_active {
            Some(active) => Some(flag_text(active)),
            None => None,
        }
    } else if key == "bot_token"@ {
        Some(db.bot_token@)
    } else if key == "admin_id"@ {
        Some(db.admin_id@)
    } else if key == "auto_restart_interval_hours"@ {
        Some(
            dec(
                match db.auto_restart_interval_hours {
                    Some(hours) => hours as nat,
                    None => DEFAULT_AUTO_RESTART_INTERVAL_HOURS as nat,
                },
            ),
        )
    } else if key == "dns"@ {
        Some(db.dns@)
    } else if key == "main_device_id"@ {
        Some(db.main_device_id@)
    } else if key == "main_password"@ {
        Some(db.main_password@)
    } else {
        meta_text(old_m, key)
    }
}

/// The device rows after the given devices were written over `base`: each under its
/// own number, without its runtime epoch.
pub open spec fn written_devices(
    base: Map<Seq<char>, DeviceView>,
    entries: Seq<TextEntry<ClientDevice>>,
) -> Map<Seq<char>, DeviceView>
    decreases entries.len(),
{
    if entries.len() == 0 {
        base
    } else {
        let d = entries.last().value;
        written_devices(base, entries.drop_last()).insert(d.device_id@, stored_view(d))
    }
}

/// The profile rows after the given profiles were written over `base`, each with its
/// position.
pub open spec fn written_profiles(
    base: Map<Seq<char>, ProfileRow>,
    profiles: Seq<LocalProxyProfile>,
) -> Map<Seq<char>, ProfileRow>
    decreases profiles.len(),
{
    if profiles.len() == 0 {
        base
    } else {
        let p = profiles.last();
        written_profiles(base, profiles.drop_last()).insert(
            p.id@,
            ProfileRow { sort_order: (profiles.len() - 1) as i64, profile: p },
        )
    }
}

/// The rows whose keys are among those of `keep`.
pub open spec fn rows_kept<V>(rows: Map<Seq<char>, V>, keep: spec_fn(Seq<char>) -> bool) -> Map<
    Seq<char>,
    V,
> {
    Map::new(|k: Seq<char>| rows.contains_key(k) && keep(k), |k: Seq<char>| rows[k])
}

/// Whether `new` is what writing `db` makes of `old`.
pub open spec fn snapshot_written(old_t: StoredTables, new_t: StoredTables, db: Database) -> bool {
    &&& forall|key: Seq<char>| #[trigger]
        meta_text(new_t.meta@, key) == written_meta(old_t.meta@, db, key)
    &&& new_t.counters == Some(
        TrafficCounters { up_bytes: db.main_up_bytes, down_bytes: db.main_down_bytes },
    )
    &&& new_t.passwords@ == db.passwords@
    &&& device_views(new_t.devices@) == written_devices(
        rows_kept(device_views(old_t.devices@), |k: Seq<char>| db.devices@.contains_key(k)),
        db.devices.entries@,
    )
    &&& new_t.profiles@ == written_profiles(
        rows_kept(
            old_t.profiles@,
            |k: Seq<char>| profile_index(db.local_proxy.profiles@, k) is Some,
        ),
        db.local_proxy.profiles@,
    )
    &&& new_t.active_profile_id is Some
    &&& new_t.active_profile_id->0@ == db.local_proxy.active_profile_id@
}

/// Sets one setting.
fn put_meta(meta: &mut TextMap<String>, key: &str, value: String)
    requires
        old(meta).wf(),
    ensures
        final(meta).wf(),
        forall|k: Seq<char>| #[trigger]
            meta_text(final(meta)@, k) == if k == key@ {
                Some(value@)
            } else {
                meta_text(old(meta)@, k)
            },
{
    meta.insert(key.to_owned(), value);
}

fn write_meta(meta: &mut TextMap<String>, db: &Database)
    requires
        old(meta).wf(),
    ensures
        final(meta).wf(),
        forall|k: Seq<char>| #[trigger]
            meta_text(final(meta)@, k) == written_meta(old(meta)@, *db, k),
{
    put_meta(meta, "main_password", db.main_password.clone());
    put_meta(meta, "main_device_id", db.main_device_id.clone());
    put_meta(meta, "dns", db.dns.clone());
    let hours = decimal(db.auto_restart_interval_hours() as u64);
    put_meta(meta, "auto_restart_interval_hours", string_of(hours.as_slice()));
    put_meta(meta, "admin_id", db.admin_id.clone());
    put_meta(meta, "bot_token", db.bot_token.clone());
    match db.logging_active {
        Some(active) => put_meta(meta, "logging_active", flag_string(active)),
        None => {
            let _gone = meta.remove("logging_active");
        },
    }
}

/// A copy of a password table.
fn copy_passwords(m: &TextMap<PasswordEntry>) -> (r: TextMap<PasswordEntry>)
    requires
        m.wf(),
    ensures
        r.wf(),
        r@ == m@,
{
    let mut r: TextMap<PasswordEntry> = TextMap::new();
    let mut i: usize = 0;
    let ghost all = m.entries@;
    proof {
        assert(all.take(0) =~= Seq::<TextEntry<PasswordEntry>>::empty());
    }
    while i < m.entries.len()
        invariant
            i <= all.len(),
            all == m.entries@,
            r.wf(),
            r@ == map_of(all.take(i as int)),
        decreases all.len() - i,
    {
        proof {
            assert(all.take(i as int + 1).drop_last() =~= all.take(i as int));
            assert(all.take(i as int + 1).last() == all[i as int]);
        }
        r.insert(m.entries[i].key.clone(), m.entries[i].value.copy());
        i = i + 1;
    }
    proof {
        assert(all.take(i as int) =~= all);
    }
    r
}

/// A device as it is stored.
fn stored_device(d: &ClientDevice) -> (r: ClientDevice)
    ensures
        device_view(r) == stored_view(*d),
        r.device_id == d.device_id,
{
    let mut r = d.copy();
    r.last_session_salt = String::new();
    r.last_generation_id = 0;
    r
}

fn write_devices(devices: &TextMap<ClientDevice>, db: &Database) -> (r: TextMap<ClientDevice>)
    requires
        devices.wf(),
        db.wf(),
        forall|k: Seq<char>| #[trigger]
            devices@.contains_key(k) ==> devices@[k].device_id@ == k,
    ensures
        r.wf(),
        forall|k: Seq<char>| #[trigger] r@.contains_key(k) ==> r@[k].device_id@ == k,
        device_views(r@) == written_devices(
            rows_kept(device_views(devices@), |k: Seq<char>| db.devices@.contains_key(k)),
            db.devices.entries@,
        ),
{
    let mut r: TextMap<ClientDevice> = TextMap::new();
    let ghost olds = devices.entries@;
    let ghost keep = |k: Seq<char>| db.devices@.contains_key(k);
    let mut i: usize = 0;
    proof {
        assert(olds.take(0) =~= Seq::<TextEntry<ClientDevice>>::empty());
        assert(device_views(r@) =~= rows_kept(device_views(map_of(olds.take(0))), keep));
    }
    while i < devices.entries.len()
        invariant
            i <= olds.len(),
            olds == devices.entries@,
            devices.wf(),
            db.wf(),
            forall|k: Seq<char>| #[trigger]
                devices@.contains_key(k) ==> devices@[k].device_id@ == k,
            keep == |k: Seq<char>| db.devices@.contains_key(k),
            r.wf(),
            forall|k: Seq<char>| #[trigger] r@.contains_key(k) ==> r@[k].device_id@ == k,
            device_views(r@) == rows_kept(device_views(map_of(olds.take(i as int))), keep),
        decreases olds.len() - i,
    {
        let ghost before = r@;
        let ghost e = olds[i as int];
        proof {
            assert(olds.take(i as int + 1).drop_last() =~= olds.take(i as int));
            assert(olds.take(i as int + 1).last() == e);
            lemma_map_of_index(olds, i as int);
            assert(devices@.contains_key(e.key@));
        }
        if db.devices.contains_key(devices.entries[i].key.as_str()) {
            r.insert(devices.entries[i].key.clone(), devices.entries[i].value.copy());
        }
        proof {
            let views = device_views(map_of(olds.take(i as int)));
            let next = device_views(map_of(olds.take(i as int + 1)));
            assert(next =~= views.insert(e.key@, device_view(e.value)));
            if !keep(e.key@) {
                assert(rows_kept(next, keep) =~= rows_kept(views, keep));
            } else {
                assert(device_views(r@) =~= device_views(before).insert(
                    e.key@,
                    device_view(e.value),
                ));
                assert(rows_kept(next, keep) =~= rows_kept(views, keep).insert(
                    e.key@,
                    device_view(e.value),
                ));
            }
        }
        i = i + 1;
    }
    let ghost base = rows_kept(device_views(devices@), keep);
    let ghost news = db.devices.entries@;
    proof {
        assert(olds.take(i as int) =~= olds);
        assert(news.take(0) =~= Seq::<TextEntry<ClientDevice>>::empty());
    }
    let mut j: usize = 0;
    while j < db.devices.entries.len()
        invariant
            j <= news.len(),
            news == db.devices.entries@,
            r.wf(),
            forall|k: Seq<char>| #[trigger] r@.contains_key(k) ==> r@[k].device_id@ == k,
            device_views(r@) == written_devices(base, news.take(j as int)),
        decreases news.len() - j,
    {
        let ghost before = r@;
        let ghost e = news[j as int];
        proof {
            assert(news.take(j as int + 1).drop_last() =~= news.take(j as int));
            assert(news.take(j as int + 1).last() == e);
        }
        let d = stored_device(&db.devices.entries[j].value);
        let key = d.device_id.clone();
        r.insert(key, d);
        proof {
            assert(device_views(r@) =~= device_views(before).insert(
                e.value.device_id@,
                stored_view(e.value),
            ));
        }
        j = j + 1;
    }
    proof {
        assert(news.take(j as int) =~= news);
    }
    r
}

fn write_profiles(rows: &TextMap<ProfileRow>, state: &LocalProxyState) -> (r: TextMap<ProfileRow>)
    requires
        rows.wf(),
        forall|k: Seq<char>| #[trigger]
            rows@.contains_key(k) ==> rows@[k].profile.id@ == k,
    ensures
        r.wf(),
        forall|k: Seq<char>| #[trigger] r@.contains_key(k) ==> r@[k].profile.id@ == k,
        r@ == written_profiles(
            rows_kept(rows@, |k: Seq<char>| profile_index(state.profiles@, k) is Some),
            state.profiles@,
        ),
{
    let mut r: TextMap<ProfileRow> = TextMap::new();
    let ghost olds = rows.entries@;
    let ghost keep = |k: Seq<char>| profile_index(state.profiles@, k) is Some;
    let mut i: usize = 0;
    proof {
        assert(olds.take(0) =~= Seq::<TextEntry<ProfileRow>>::empty());
        assert(r@ =~= rows_kept(map_of(olds.take(0)), keep));
    }
    while i < rows.entries.len()
        invariant
            i <= olds.len(),
            olds == rows.entries@,
            rows.wf(),
            forall|k: Seq<char>| #[trigger]
                rows@.contains_key(k) ==> rows@[k].profile.id@ == k,
            keep == |k: Seq<char>| profile_index(state.profiles@, k) is Some,
            r.wf(),
            forall|k: Seq<char>| #[trigger] r@.contains_key(k) ==> r@[k].profile.id@ == k,
            r@ == rows_kept(map_of(olds.take(i as int)), keep),
        decreases olds.len() - i,
    {
        let ghost e = olds[i as int];
        proof {
            assert(olds.take(i as int + 1).drop_last() =~= olds.take(i as int));
            assert(olds.take(i as int + 1).last() == e);
            lemma_map_of_index(olds, i as int);
            assert(rows@.contains_key(e.key@));
        }
        if state.find_profile(rows.entries[i].key.as_str()).is_some() {
            r.insert(
                rows.entries[i].key.clone(),
                ProfileRow {
                    sort_order: rows.entries[i].value.sort_order,
                    profile: rows.entries[i].value.profile.copy(),
                },
            );
        }
        proof {
            let m = map_of(olds.take(i as int));
            let n = map_of(olds.take(i as int + 1));
            if !keep(e.key@) {
                assert(rows_kept(n, keep) =~= rows_kept(m, keep));
            } else {
                assert(rows_kept(n, keep) =~= rows_kept(m, keep).insert(e.key@, e.value));
            }
        }
        i = i + 1;
    }
    let ghost base = rows_kept(rows@, keep);
    let ghost news = state.profiles@;
    proof {
        assert(olds.take(i as int) =~= olds);
        assert(news.take(0) =~= Seq::<LocalProxyProfile>::empty());
    }
    let mut j: usize = 0;
    while j < state.profiles.len()
        invariant
            j <= news.len(),
            news == state.profiles@,
            r.wf(),
            forall|k: Seq<char>| #[trigger] r@.contains_key(k) ==> r@[k].profile.id@ == k,
            r@ == written_profiles(base, news.take(j as int)),
        decreases news.len() - j,
    {
        proof {
            assert(news.take(j as int + 1).drop_last() =~= news.take(j as int));
            assert(news.take(j as int + 1).last() == news[j as int]);
        }
        r.insert(
            state.profiles[j].id.clone(),
            ProfileRow { sort_order: j as i64, profile: state.profiles[j].copy() },
        );
        j = j + 1;
    }
    proof {
        assert(news.take(j as int) =~= news);
    }
    r
}

/// Writes the whole database: settings, counters and rows. Rows of passwords, devices
/// and profiles that are no longer there go.
pub fn write_database_snapshot(tables: &mut StoredTables, db: &Database)
    requires
        old(tables).wf(),
        db.wf(),
    ensures
        final(tables).wf(),
        snapshot_written(*old(tables), *final(tables), *db),
{
    write_meta(&mut tables.meta, db);
    tables.counters = Some(
        TrafficCounters { up_bytes: db.main_up_bytes, down_bytes: db.main_down_bytes },
    );
    tables.passwords = copy_passwords(&db.passwords);
    tables.devices = write_devices(&tables.devices, db);
    tables.profiles = write_profiles(&tables.profiles, &db.local_proxy);
    tables.active_profile_id = Some(db.local_proxy.active_profile_id.clone());
}

/// Saves the database to the tables.
pub fn save_database(tables: &mut StoredTables, db: &Database)
    requires
        old(tables).wf(),
        db.wf(),
    ensures
        final(tables).wf(),
        snapshot_written(*old(tables), *final(tables), *db),
{
    write_database_snapshot(tables, db)
}

// ---------------------------------------------------------------------------
// Reading
// ---------------------------------------------------------------------------

/// Where a row belongs among rows that are in order: behind all that are not greater.
pub open spec fn row_position(rows: Seq<ProfileRow>, order: i64) -> int
    decreases rows.len(),
{
    if rows.len() == 0 || rows.last().sort_order <= order {
        rows.len() as int
    } else {
        row_position(rows.drop_last(), order)
    }
}

/// The rows of a table in the order of their positions; rows with one position stay in
/// the order of their keys.
pub open spec fn rows_in_order(entries: Seq<TextEntry<ProfileRow>>) -> Seq<ProfileRow>
    decreases entries.len(),
{
    if entries.len() == 0 {
        Seq::empty()
    } else {
        let rows = rows_in_order(entries.drop_last());
        let row = entries.last().value;
        rows.insert(row_position(rows, row.sort_order), row)
    }
}

/// The profiles of some rows.
pub open spec fn profiles_of(rows: Seq<ProfileRow>) -> Seq<LocalProxyProfile> {
    Seq::new(rows.len(), |i: int| rows[i].profile)
}

/// Whether `db` is what reading the tables gives. The administrator and the bot token
/// are never taken over, nor are web sessions.
pub open spec fn snapshot_read(t: StoredTables, db: Database) -> bool {
    &&& db.main_password@ == meta_or_empty(t.meta@, "main_password"@)
    &&& db.main_device_id@ == meta_or_empty(t.meta@, "main_device_id"@)
    &&& db.dns@ == meta_or_empty(t.meta@, "dns"@)
    &&& db.admin_id@ == Seq::<char>::empty()
    &&& db.bot_token@ == Seq::<char>::empty()
    &&& (match db.auto_restart_interval_hours {
        Some(hours) => Some(hours as nat),
        None => None,
    }) == match meta_text(t.meta@, "auto_restart_interval_hours"@) {
        Some(text) => parse_unsigned(text, 255),
        None => None,
    }
    &&& db.logging_active == match meta_text(t.meta@, "logging_active"@) {
        Some(text) => Some(text == "1"@),
        None => None,
    }
    &&& db.main_up_bytes == (match t.counters {
        Some(c) => c.up_bytes,
        None => 0,
    })
    &&& db.main_down_bytes == (match t.counters {
        Some(c) => c.down_bytes,
        None => 0,
    })
    &&& db.passwords@ == t.passwords@
    &&& db.devices@ == t.devices@
    &&& db.web_sessions@ == Map::<Seq<char>, i64>::empty()
    &&& db.local_proxy.profiles@ == with_ports(profiles_of(rows_in_order(t.profiles.entries@)))
    &&& db.local_proxy.active_profile_id@ == valid_active(
        profiles_of(rows_in_order(t.profiles.entries@)),
        match t.active_profile_id {
            Some(id) => id@,
            None => Seq::empty(),
        },
    )
}

fn get_meta(meta: &TextMap<String>, key: &str) -> (r: String)
    requires
        meta.wf(),
    ensures
        r@ == meta_or_empty(meta@, key@),
{
    match meta.get(key) {
        Some(text) => text.clone(),
        None => String::new(),
    }
}

/// A copy of a device table.
fn copy_devices(m: &TextMap<ClientDevice>) -> (r: TextMap<ClientDevice>)
    requires
        m.wf(),
    ensures
        r.wf(),
        r@ == m@,
{
    let mut r: TextMap<ClientDevice> = TextMap::new();
    let mut i: usize = 0;
    let ghost all = m.entries@;
    proof {
        assert(all.take(0) =~= Seq::<TextEntry<ClientDevice>>::empty());
    }
    while i < m.entries.len()
        invariant
            i <= all.len(),
            all == m.entries@,
            r.wf(),
            r@ == map_of(all.take(i as int)),
        decreases all.len() - i,
    {
        proof {
            assert(all.take(i as int + 1).drop_last() =~= all.take(i as int));
            assert(all.take(i as int + 1).last() == all[i as int]);
        }
        r.insert(m.entries[i].key.clone(), m.entries[i].value.copy());
        i = i + 1;
    }
    proof {
        assert(all.take(i as int) =~= all);
    }
    r
}

fn order_rows(rows: &TextMap<ProfileRow>) -> (r: Vec<LocalProxyProfile>)
    ensures
        r@ == profiles_of(rows_in_order(rows.entries@)),
{
    let ghost all = rows.entries@;
    let mut sorted: Vec<ProfileRow> = Vec::new();
    let mut i: usize = 0;
    proof {
        assert(all.take(0) =~= Seq::<TextEntry<ProfileRow>>::empty());
        assert(sorted@ =~= Seq::<ProfileRow>::empty());
    }
    while i < rows.entries.len()
        invariant
            i <= all.len(),
            all == rows.entries@,
            sorted@ == rows_in_order(all.take(i as int)),
        decreases all.len() - i,
    {
        let ghost e = all[i as int];
        proof {
            assert(all.take(i as int + 1).drop_last() =~= all.take(i as int));
            assert(all.take(i as int + 1).last() == e);
        }
        let order: i64 = rows.entries[i].value.sort_order;
        let ghost full = sorted@;
        let mut p: usize = sorted.len();
        proof {
            assert(full.take(p as int) =~= full);
        }
        while p > 0 && sorted[p - 1].sort_order > order
            invariant
                p <= sorted@.len(),
                sorted@ == full,
                row_position(full, order) == row_position(full.take(p as int), order),
            decreases p,
        {
            proof {
                assert(full.take(p as int).last() == full[p - 1]);
                assert(full.take(p as int).drop_last() =~= full.take(p - 1));
            }
            p = p - 1;
        }
        proof {
            if p > 0 {
                assert(full.take(p as int).last() == full[p - 1]);
            }
        }
        sorted.insert(
            p,
            ProfileRow { sort_order: order, profile: rows.entries[i].value.profile.copy() },
        );
        i = i + 1;
    }
    proof {
        assert(all.take(i as int) =~= all);
    }
    let mut r: Vec<LocalProxyProfile> = Vec::new();
    let mut j: usize = 0;
    while j < sorted.len()
        invariant
            j <= sorted@.len(),
            r@.len() == j,
            forall|k: int| 0 <= k < j ==> #[trigger] r@[k] == sorted@[k].profile,
        decreases sorted@.len() - j,
    {
        r.push(sorted[j].profile.copy());
        j = j + 1;
    }
    proof {
        assert(r@ =~= profiles_of(rows_in_order(all)));
    }
    r
}

/// Reads the database from the tables.
pub fn read_database_snapshot(tables: &StoredTables) -> (db: Database)
    requires
        tables.wf(),
    ensures
        db.wf(),
        snapshot_read(*tables, db),
{
    let mut db = Database::new();
    db.main_password = get_meta(&tables.meta, "main_password");
    db.main_device_id = get_meta(&tables.meta, "main_device_id");
    db.dns = get_meta(&tables.meta, "dns");
    if let Some(text) = tables.meta.get("auto_restart_interval_hours") {
        let chars = chars_of(text.as_str());
        if let Some(hours) = parse_number(chars.as_slice(), 255) {
            db.auto_restart_interval_hours = Some(hours as u8);
        }
    }
    if let Some(text) = tables.meta.get("logging_active") {
        db.logging_active = Some(same_text(text.as_str(), "1"));
    }
    if let Some(counters) = tables.counters {
        db.main_up_bytes = counters.up_bytes;
        db.main_down_bytes = counters.down_bytes;
    }
    db.passwords = copy_passwords(&tables.passwords);
    db.devices = copy_devices(&tables.devices);
    db.local_proxy.profiles = order_rows(&tables.profiles);
    if let Some(id) = &tables.active_profile_id {
        db.local_proxy.active_profile_id = id.clone();
    }
    db.local_proxy.normalize();
    db
}

/// A snapshot writes every setting under its own name, the number of hours in decimal, and
/// drops the note on logging where it is not known; other settings stay.
pub proof fn law_snapshot_writes_the_settings(
    old_t: StoredTables,
    new_t: StoredTables,
    db: Database,
    key: Seq<char>,
)
    requires
        snapshot_written(old_t, new_t, db),
    ensures
        meta_text(new_t.meta@, "bot_token"@) == Some(db.bot_token@),
        meta_text(new_t.meta@, "admin_id"@) == Some(db.admin_id@),
        meta_text(new_t.meta@, "dns"@) == Some(db.dns@),
        meta_text(new_t.meta@, "main_device_id"@) == Some(db.main_device_id@),
        meta_text(new_t.meta@, "main_password"@) == Some(db.main_password@),
        db.auto_restart_interval_hours matches Some(hours) ==> meta_text(
            new_t.meta@,
            "auto_restart_interval_hours"@,
        ) == Some(dec(hours as nat)),
        db.auto_restart_interval_hours is None ==> meta_text(
            new_t.meta@,
            "auto_restart_interval_hours"@,
        ) == Some(dec(0)),
        meta_text(new_t.meta@, "logging_active"@) == match db.logging_active {
            Some(true) => Some("1"@),
            Some(false) => Some("0"@),
            None => None,
        },
        key != "bot_token"@ && key != "admin_id"@ && key != "dns"@ && key != "main_device_id"@
            && key != "main_password"@ && key != "auto_restart_interval_hours"@ && key
            != "logging_active"@ ==> meta_text(new_t.meta@, key) == meta_text(old_t.meta@, key),
        new_t.counters == Some(
            TrafficCounters { up_bytes: db.main_up_bytes, down_bytes: db.main_down_bytes },
        ),
{
    reveal_strlit("bot_token");
    reveal_strlit("admin_id");
    reveal_strlit("dns");
    reveal_strlit("main_device_id");
    reveal_strlit("main_password");
    reveal_strlit("auto_restart_interval_hours");
    reveal_strlit("logging_active");
    assert("bot_token"@.len() == 9 && "admin_id"@.len() == 8 && "dns"@.len() == 3
        && "main_device_id"@.len() == 14 && "main_password"@.len() == 13
        && "auto_restart_interval_hours"@.len() == 27 && "logging_active"@.len() == 14);
    assert("main_device_id"@[0] != "logging_active"@[0]);
    let m = old_t.meta@;
    assert(meta_text(new_t.meta@, "bot_token"@) == written_meta(m, db, "bot_token"@));
    assert(meta_text(new_t.meta@, "admin_id"@) == written_meta(m, db, "admin_id"@));
    assert(meta_text(new_t.meta@, "dns"@) == written_meta(m, db, "dns"@));
    assert(meta_text(new_t.meta@, "main_device_id"@) == written_meta(m, db, "main_device_id"@));
    assert(meta_text(new_t.meta@, "main_password"@) == written_meta(m, db, "main_password"@));
    assert(meta_text(new_t.meta@, "auto_restart_interval_hours"@) == written_meta(
        m,
        db,
        "auto_restart_interval_hours"@,
    ));
    assert(meta_text(new_t.meta@, "logging_active"@) == written_meta(m, db, "logging_active"@));
    assert(meta_text(new_t.meta@, key) == written_meta(m, db, key));
}

/// A stored device is the device without its last session.
pub proof fn law_stored_device_has_no_session(d: ClientDevice)
    ensures
        ({
            let v = stored_view(d);
            &&& v.device_id == d.device_id@ && v.ip == d.ip@
            &&& v.priv_key == d.priv_key@ && v.pub_key == d.pub_key@
            &&& v.up_bytes == d.up_bytes && v.down_bytes == d.down_bytes
            &&& v.bound_password == d.bound_password@
            &&& v.last_session_salt.len() == 0 && v.last_generation_id == 0
        }),
{
}

/// Profiles are read in the order of their positions, and none is lost.
pub proof fn law_profiles_are_read_in_order(entries: Seq<TextEntry<ProfileRow>>, i: int, j: int)
    ensures
        rows_in_order(entries).len() == entries.len(),
        0 <= i <= j < entries.len() ==> rows_in_order(entries)[i].sort_order <= rows_in_order(
            entries,
        )[j].sort_order,
        0 <= i < entries.len() ==> rows_in_order(entries).contains(entries[i].value),
    decreases entries.len(),
{
    if entries.len() > 0 {
        let before = entries.drop_last();
        let rows = rows_in_order(before);
        let row = entries.last().value;
        let at = row_position(rows, row.sort_order);
        let all = rows_in_order(entries);
        law_profiles_are_read_in_order(before, 0, 0);
        lemma_row_position(rows, row.sort_order);
        assert forall|a: int, b: int|
            0 <= a <= b < rows.len() implies rows[a].sort_order <= rows[b].sort_order by {
            law_profiles_are_read_in_order(before, a, b);
        }
        lemma_row_position_before(rows, row.sort_order);
        if 0 <= i < entries.len() {
            if i == entries.len() - 1 {
                assert(all[at] == row);
            } else {
                law_profiles_are_read_in_order(before, i, i);
                assert(before[i] == entries[i]);
                let k = choose|k: int| 0 <= k < rows.len() && rows[k] == before[i].value;
                if k < at {
                    assert(all[k] == rows[k]);
                } else {
                    assert(all[k + 1] == rows[k]);
                }
            }
        }
    }
}

/// A new row stands behind every row that is not after it.
proof fn lemma_row_position(rows: Seq<ProfileRow>, order: i64)
    ensures
        0 <= row_position(rows, order) <= rows.len(),
        row_position(rows, order) > 0 ==> rows[row_position(rows, order) - 1].sort_order <= order,
        forall|k: int|
            row_position(rows, order) <= k < rows.len() ==> (#[trigger] rows[k]).sort_order > order,
    decreases rows.len(),
{
    if rows.len() > 0 && rows.last().sort_order > order {
        let d = rows.drop_last();
        lemma_row_position(d, order);
        assert forall|k: int| row_position(rows, order) <= k < rows.len() implies (
        #[trigger] rows[k]).sort_order > order by {
            if k < d.len() {
                assert(d[k] == rows[k]);
            }
        }
    }
}

proof fn lemma_row_position_before(rows: Seq<ProfileRow>, order: i64)
    requires
        forall|a: int, b: int|
            0 <= a <= b < rows.len() ==> rows[a].sort_order <= rows[b].sort_order,
    ensures
        forall|k: int|
            0 <= k < row_position(rows, order) ==> (#[trigger] rows[k]).sort_order <= order,
{
    lemma_row_position(rows, order);
    let at = row_position(rows, order);
    assert forall|k: int| 0 <= k < at implies (#[trigger] rows[k]).sort_order <= order by {
        assert(rows[k].sort_order <= rows[at - 1].sort_order);
    }
}

/// A setting that was written is read back, every other one is as before, and one that was
/// never written is not there and reads as nothing.
pub proof fn law_settings_are_read_back(
    m: Map<Seq<char>, String>,
    key: Seq<char>,
    value: String,
    other: Seq<char>,
)
    ensures
        meta_text(m.insert(key, value), key) == Some(value@),
        meta_or_empty(m.insert(key, value), key) == value@,
        other != key ==> meta_text(m.insert(key, value), other) == meta_text(m, other),
        !m.contains_key(key) ==> meta_text(m, key) is None && meta_or_empty(m, key).len() == 0,
{
}

} // verus!
