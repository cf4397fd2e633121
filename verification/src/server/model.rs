//! What the server stores: passwords, devices, proxy profiles and settings.
use vstd::prelude::*;
use crate::addr::{Ipv4, ipv4_text};
use crate::server::keys::{base64_url, random_token};
use crate::server::net_setup::{TunnelNetwork, host_address, network};
use crate::text::{chars_of, dec, decimal, push_chars, same_text, string_of, text_lt};
use crate::text_map::{
    TextEntry, TextMap, keys_sorted, lemma_map_of_domain, lemma_map_of_index, map_of,
};

verus! {

/// Most client passwords.
pub const MAX_PASSWORDS: usize = 20;

/// Automatic restarts are off where nothing is set.
pub const DEFAULT_AUTO_RESTART_INTERVAL_HOURS: u8 = 0;

/// Port of a local proxy where none is set.
pub const DEFAULT_LOCAL_PROXY_PORT: u16 = 45000;

/// First host number that is given to a device.
pub const FIRST_CLIENT_HOST: u8 = 2;

/// Last host number that is given to a device.
pub const LAST_CLIENT_HOST: u8 = 250;

/// A device with its tunnel address and keys.
#[derive(Debug)]
pub struct ClientDevice {
    pub device_id: String,
    pub ip: String,
    pub priv_key: String,
    pub pub_key: String,
    pub up_bytes: i64,
    pub down_bytes: i64,
    pub bound_password: String,
    pub last_session_salt: String,
    pub last_generation_id: u64,
}

/// What belongs to a client password.
#[derive(Debug)]
pub struct PasswordEntry {
    pub device_id: String,
    pub expires_at: i64,
    pub down_bytes: i64,
    pub up_bytes: i64,
    pub vk_hash: String,
    pub ports: String,
    pub is_deactivated: bool,
    pub name: String,
    pub vk_hashes: String,
    pub dtls_port: u16,
    pub wg_port: u16,
    pub local_port: u16,
}

/// A SOCKS5 proxy that client traffic can be sent through.
#[derive(Debug)]
pub struct LocalProxyProfile {
    pub host: String,
    pub id: String,
    pub name: String,
    pub port: u16,
    pub username: String,
    pub password: String,
}

/// The proxy profiles and the one in use.
#[derive(Debug)]
pub struct LocalProxyState {
    pub active_profile_id: String,
    pub profiles: Vec<LocalProxyProfile>,
}

/// All stored state.
#[derive(Debug)]
pub struct Database {
    pub main_password: String,
    pub main_device_id: String,
    pub dns: String,
    /// Nothing set means the default; zero means that restarts are off.
    pub auto_restart_interval_hours: Option<u8>,
    pub main_up_bytes: i64,
    pub main_down_bytes: i64,
    pub admin_id: String,
    pub bot_token: String,
    pub passwords: TextMap<PasswordEntry>,
    pub devices: TextMap<ClientDevice>,
    pub web_sessions: TextMap<i64>,
    pub logging_active: Option<bool>,
    pub local_proxy: LocalProxyState,
}

impl ClientDevice {
    /// A copy.
    pub fn copy(&self) -> (r: Self)
        ensures
            r == *self,
    {
        ClientDevice {
            device_id: self.device_id.clone(),
            ip: self.ip.clone(),
            priv_key: self.priv_key.clone(),
            pub_key: self.pub_key.clone(),
            up_bytes: self.up_bytes,
            down_bytes: self.down_bytes,
            bound_password: self.bound_password.clone(),
            last_session_salt: self.last_session_salt.clone(),
            last_generation_id: self.last_generation_id,
        }
    }
}

impl PasswordEntry {
    /// A copy.
    pub fn copy(&self) -> (r: Self)
        ensures
            r == *self,
    {
        PasswordEntry {
            device_id: self.device_id.clone(),
            expires_at: self.expires_at,
            down_bytes: self.down_bytes,
            up_bytes: self.up_bytes,
            vk_hash: self.vk_hash.clone(),
            ports: self.ports.clone(),
            is_deactivated: self.is_deactivated,
            name: self.name.clone(),
            vk_hashes: self.vk_hashes.clone(),
            dtls_port: self.dtls_port,
            wg_port: self.wg_port,
            local_port: self.local_port,
        }
    }
}

/// The proxy host where none is set.
pub fn default_proxy_host() -> (r: String)
    ensures
        r@ == "127.0.0.1"@,
{
    "127.0.0.1".to_owned()
}

impl LocalProxyProfile {
    /// A copy.
    pub fn copy(&self) -> (r: Self)
        ensures
            r == *self,
    {
        LocalProxyProfile {
            host: self.host.clone(),
            id: self.id.clone(),
            name: self.name.clone(),
            port: self.port,
            username: self.username.clone(),
            password: self.password.clone(),
        }
    }

    /// A random profile number.
    pub fn new_id() -> (r: String)
        ensures
            exists|data: Seq<u8>| data.len() == 6 && r@ == #[trigger] base64_url(data),
    {
        random_token(6)
    }

    /// The profile that a single-proxy setting describes. A port beyond the range of
    /// ports is cut to its low sixteen bits; a missing or zero port means the default.
    pub fn from_single(id: String, port: Option<u64>, username: String, password: String) -> (r:
        Self)
        ensures
            single_profile(r, id, port, username, password),
    {
        let wanted: u16 = match port {
            Some(p) => (p % 0x10000) as u16,
            None => DEFAULT_LOCAL_PROXY_PORT,
        };
        let mut name = chars_of("SOCKS5 :");
        let digits = decimal(wanted as u64);
        push_chars(&mut name, digits.as_slice());
        LocalProxyProfile {
            host: default_proxy_host(),
            id,
            name: string_of(name.as_slice()),
            port: if wanted == 0 {
                DEFAULT_LOCAL_PROXY_PORT
            } else {
                wanted
            },
            username,
            password,
        }
    }
}

/// The first profile with an id.
pub open spec fn profile_index(profiles: Seq<LocalProxyProfile>, id: Seq<char>) -> Option<int>
    decreases profiles.len(),
{
    if profiles.len() == 0 {
        None
    } else {
        match profile_index(profiles.drop_last(), id) {
            Some(i) => Some(i),
            None => if profiles.last().id@ == id {
                Some(profiles.len() - 1)
            } else {
                None
            },
        }
    }
}

/// The first index is in range, has the id, and no earlier one has it.
pub proof fn lemma_profile_index(profiles: Seq<LocalProxyProfile>, id: Seq<char>)
    ensures
        match profile_index(profiles, id) {
            Some(i) => 0 <= i < profiles.len() && profiles[i].id@ == id && forall|j: int|
                0 <= j < i ==> (#[trigger] profiles[j]).id@ != id,
            None => forall|j: int| 0 <= j < profiles.len() ==> (#[trigger] profiles[j]).id@ != id,
        },
    decreases profiles.len(),
{
    if profiles.len() > 0 {
        let d = profiles.drop_last();
        lemma_profile_index(d, id);
        match profile_index(d, id) {
            Some(i) => {
                assert forall|j: int| 0 <= j < i implies (#[trigger] profiles[j]).id@ != id by {
                    assert(d[j] == profiles[j]);
                }
            },
            None => {
                assert forall|j: int| 0 <= j < d.len() implies (#[trigger] profiles[j]).id@
                    != id by {
                    assert(d[j] == profiles[j]);
                }
            },
        }
    }
}

/// A profile with its port set.
pub open spec fn with_port(p: LocalProxyProfile) -> LocalProxyProfile {
    if p.port == 0 {
        LocalProxyProfile { port: DEFAULT_LOCAL_PROXY_PORT, ..p }
    } else {
        p
    }
}

/// The profiles with their ports set.
pub open spec fn with_ports(profiles: Seq<LocalProxyProfile>) -> Seq<LocalProxyProfile> {
    Seq::new(profiles.len(), |i: int| with_port(profiles[i]))
}

/// The id of the profile in use: none where no profile has it.
pub open spec fn valid_active(profiles: Seq<LocalProxyProfile>, id: Seq<char>) -> Seq<char> {
    if profile_index(profiles, id) is Some {
        id
    } else {
        Seq::empty()
    }
}

/// The setting of a single proxy.
#[derive(Debug)]
pub struct SingleProxy {
    pub enabled: bool,
    pub port: Option<u64>,
    pub username: String,
    pub password: String,
}

impl LocalProxyState {
    /// No profiles.
    pub fn new() -> (r: Self)
        ensures
            r.active_profile_id@ == Seq::<char>::empty(),
            r.profiles@.len() == 0,
    {
        LocalProxyState { active_profile_id: String::new(), profiles: Vec::new() }
    }

    /// What a stored value describes: a list of profiles; or else a single proxy, which
    /// becomes a profile with the given id and is active where it was enabled; or else
    /// nothing.
    pub fn restored(
        profiles: Option<Vec<LocalProxyProfile>>,
        active_profile_id: String,
        single: Option<SingleProxy>,
        id: String,
    ) -> (r: Self)
        ensures
            state_restored(r, profiles, active_profile_id, single, id),
    {
        match profiles {
            Some(list) => LocalProxyState { active_profile_id, profiles: list },
            None => match single {
                Some(proxy) => {
                    let active = if proxy.enabled {
                        id.clone()
                    } else {
                        String::new()
                    };
                    let profile = LocalProxyProfile::from_single(
                        id,
                        proxy.port,
                        proxy.username,
                        proxy.password,
                    );
                    let mut list: Vec<LocalProxyProfile> = Vec::new();
                    list.push(profile);
                    LocalProxyState { active_profile_id: active, profiles: list }
                },
                None => LocalProxyState::new(),
            },
        }
    }

    fn position(&self, id: &str) -> (r: Option<usize>)
        ensures
            match r {
                Some(i) => profile_index(self.profiles@, id@) == Some(i as int) && i
                    < self.profiles@.len() && self.profiles@[i as int].id@ == id@,
                None => profile_index(self.profiles@, id@) is None,
            },
    {
        let mut i: usize = 0;
        while i < self.profiles.len()
            invariant
                i <= self.profiles@.len(),
                forall|j: int| 0 <= j < i ==> (#[trigger] self.profiles@[j]).id@ != id@,
            decreases self.profiles@.len() - i,
        {
            if same_text(self.profiles[i].id.as_str(), id) {
                proof {
                    lemma_profile_index(self.profiles@, id@);
                }
                return Some(i);
            }
            i = i + 1;
        }
        proof {
            lemma_profile_index(self.profiles@, id@);
        }
        None
    }

    /// Sets missing ports, and deactivates a profile that is not there.
    pub fn normalize(&mut self)
        ensures
            final(self).profiles@ == with_ports(old(self).profiles@),
            final(self).active_profile_id@ == valid_active(
                old(self).profiles@,
                old(self).active_profile_id@,
            ),
    {
        let ghost before = self.profiles@;
        let mut i: usize = 0;
        while i < self.profiles.len()
            invariant
                i <= before.len(),
                self.profiles@.len() == before.len(),
                self.active_profile_id@ == old(self).active_profile_id@,
                forall|j: int| 0 <= j < i ==> #[trigger] self.profiles@[j] == with_port(before[j]),
                forall|j: int|
                    i <= j < before.len() ==> #[trigger] self.profiles@[j] == before[j],
            decreases before.len() - i,
        {
            if self.profiles[i].port == 0 {
                let mut p = self.profiles[i].copy();
                p.port = DEFAULT_LOCAL_PROXY_PORT;
                self.profiles.set(i, p);
            }
            i = i + 1;
        }
        proof {
            assert(self.profiles@ =~= with_ports(before));
            lemma_profile_index(before, self.active_profile_id@);
            lemma_profile_index(self.profiles@, self.active_profile_id@);
            if profile_index(before, self.active_profile_id@) is Some {
                let k = profile_index(before, self.active_profile_id@).unwrap();
                assert(self.profiles@[k].id@ == before[k].id@);
            }
            if profile_index(self.profiles@, self.active_profile_id@) is Some {
                let k = profile_index(self.profiles@, self.active_profile_id@).unwrap();
                assert(before[k].id@ == self.profiles@[k].id@);
            }
        }
        if self.position(self.active_profile_id.as_str()).is_none() {
            self.active_profile_id = String::new();
        }
    }

    /// The profile in use.
    pub fn active_profile(&self) -> (r: Option<&LocalProxyProfile>)
        ensures
            match r {
                Some(p) => self.active_profile_id@.len() > 0 && profile_index(
                    self.profiles@,
                    self.active_profile_id@,
                ) is Some && *p == self.profiles@[profile_index(
                    self.profiles@,
                    self.active_profile_id@,
                ).unwrap()],
                None => self.active_profile_id@.len() == 0 || profile_index(
                    self.profiles@,
                    self.active_profile_id@,
                ) is None,
            },
    {
        if self.active_profile_id.as_str().is_empty() {
            return None;
        }
        self.find_profile(self.active_profile_id.as_str())
    }

    /// The first profile with an id.
    pub fn find_profile(&self, id: &str) -> (r: Option<&LocalProxyProfile>)
        ensures
            match r {
                Some(p) => profile_index(self.profiles@, id@) is Some && *p
                    == self.profiles@[profile_index(self.profiles@, id@).unwrap()],
                None => profile_index(self.profiles@, id@) is None,
            },
    {
        match self.position(id) {
            Some(i) => Some(&self.profiles[i]),
            None => None,
        }
    }

    /// The first profile with an id, to be changed.
    pub fn find_profile_mut(&mut self, id: &str) -> (r: Option<&mut LocalProxyProfile>)
        ensures
            match r {
                Some(p) => {
                    let at = profile_index(old(self).profiles@, id@);
                    &&& at is Some
                    &&& *p == old(self).profiles@[at.unwrap()]
                    &&& final(self).profiles@ == old(self).profiles@.update(at.unwrap(), *final(p))
                    &&& final(self).active_profile_id == old(self).active_profile_id
                },
                None => profile_index(old(self).profiles@, id@) is None && *final(self) == *old(self),
            },
    {
        match self.position(id) {
            Some(i) => Some(&mut self.profiles[i]),
            None => None,
        }
    }

    /// Removes every profile with an id, and deactivates it.
    pub fn remove_profile(&mut self, id: &str) -> (r: bool)
        ensures
            final(self).profiles@ == old(self).profiles@.filter(
                |p: LocalProxyProfile| p.id@ != id@,
            ),
            final(self).active_profile_id@ == (if old(self).active_profile_id@ == id@ {
                Seq::<char>::empty()
            } else {
                old(self).active_profile_id@
            }),
            r == profile_index(old(self).profiles@, id@) is Some,
    {
        let ghost all = self.profiles@;
        let ghost keep = |p: LocalProxyProfile| p.id@ != id@;
        let found = self.position(id).is_some();
        let mut kept: Vec<LocalProxyProfile> = Vec::new();
        let mut i: usize = 0;
        proof {
            reveal(Seq::filter);
            assert(all.take(0) =~= Seq::<LocalProxyProfile>::empty());
            assert(kept@ =~= all.take(0).filter(keep));
        }
        while i < self.profiles.len()
            invariant
                i <= all.len(),
                self.profiles@ == all,
                self.active_profile_id == old(self).active_profile_id,
                keep == |p: LocalProxyProfile| p.id@ != id@,
                kept@ == all.take(i as int).filter(keep),
            decreases all.len() - i,
        {
            proof {
                reveal(Seq::filter);
                assert(all.take(i as int + 1).drop_last() =~= all.take(i as int));
                assert(all.take(i as int + 1).last() == all[i as int]);
            }
            if !same_text(self.profiles[i].id.as_str(), id) {
                kept.push(self.profiles[i].copy());
            }
            i = i + 1;
        }
        proof {
            assert(all.take(i as int) =~= all);
        }
        self.profiles = kept;
        if same_text(self.active_profile_id.as_str(), id) {
            self.active_profile_id = String::new();
        }
        found
    }
}

/// Normalizing twice is the same as normalizing once.
pub proof fn law_normalize_idempotent(profiles: Seq<LocalProxyProfile>, id: Seq<char>)
    ensures
        with_ports(with_ports(profiles)) == with_ports(profiles),
        valid_active(with_ports(profiles), valid_active(profiles, id)) == valid_active(
            profiles,
            id,
        ),
{
    let w = with_ports(profiles);
    assert(with_ports(w) =~= w);
    let v = valid_active(profiles, id);
    lemma_profile_index(profiles, id);
    lemma_profile_index(w, v);
    if profile_index(profiles, id) is Some {
        let k = profile_index(profiles, id).unwrap();
        assert(w[k].id@ == profiles[k].id@);
    }
    assert(valid_active(w, v) =~= v);
}

/// Normalizing leaves the id of the profile in use naming an existing profile, or
/// empty; and every profile with a port.
pub proof fn law_normalize_valid(profiles: Seq<LocalProxyProfile>, id: Seq<char>)
    ensures
        valid_active(profiles, id).len() > 0 ==> profile_index(
            with_ports(profiles),
            valid_active(profiles, id),
        ) is Some,
        forall|i: int|
            0 <= i < profiles.len() ==> (#[trigger] with_ports(profiles)[i]).port != 0,
{
    let w = with_ports(profiles);
    lemma_profile_index(profiles, id);
    lemma_profile_index(w, id);
    if profile_index(profiles, id) is Some {
        let k = profile_index(profiles, id).unwrap();
        assert(w[k].id@ == profiles[k].id@);
    }
}

/// Whether `new` is `old` but for the bindings that `drop` selects, which are cleared.
pub open spec fn bindings_cleared(
    old_d: Map<Seq<char>, ClientDevice>,
    new_d: Map<Seq<char>, ClientDevice>,
    drop: spec_fn(Seq<char>) -> bool,
) -> bool {
    &&& new_d.dom() == old_d.dom()
    &&& forall|k: Seq<char>| #[trigger]
        old_d.contains_key(k) ==> {
            let o = old_d[k];
            let n = new_d[k];
            &&& n.bound_password@ == (if drop(o.bound_password@) {
                Seq::empty()
            } else {
                o.bound_password@
            })
            &&& n == ClientDevice { bound_password: n.bound_password, ..o }
        }
}

impl Database {
    /// The maps are in order.
    pub open spec fn wf(&self) -> bool {
        self.passwords.wf() && self.devices.wf() && self.web_sessions.wf()
    }

    /// The empty database.
    pub fn new() -> (r: Self)
        ensures
            r.wf(),
            r.main_password@ == Seq::<char>::empty(),
            r.main_device_id@ == Seq::<char>::empty(),
            r.dns@ == Seq::<char>::empty(),
            r.auto_restart_interval_hours is None,
            r.main_up_bytes == 0,
            r.main_down_bytes == 0,
            r.admin_id@ == Seq::<char>::empty(),
            r.bot_token@ == Seq::<char>::empty(),
            r.passwords@ == Map::<Seq<char>, PasswordEntry>::empty(),
            r.devices@ == Map::<Seq<char>, ClientDevice>::empty(),
            r.web_sessions@ == Map::<Seq<char>, i64>::empty(),
            r.logging_active is None,
            r.local_proxy.active_profile_id@ == Seq::<char>::empty(),
            r.local_proxy.profiles@.len() == 0,
    {
        Database {
            main_password: String::new(),
            main_device_id: String::new(),
            dns: String::new(),
            auto_restart_interval_hours: None,
            main_up_bytes: 0,
            main_down_bytes: 0,
            admin_id: String::new(),
            bot_token: String::new(),
            passwords: TextMap::new(),
            devices: TextMap::new(),
            web_sessions: TextMap::new(),
            logging_active: None,
            local_proxy: LocalProxyState::new(),
        }
    }

    /// Hours between automatic restarts; zero means never.
    pub fn auto_restart_interval_hours(&self) -> (r: u8)
        ensures
            r == match self.auto_restart_interval_hours {
                Some(hours) => hours,
                None => DEFAULT_AUTO_RESTART_INTERVAL_HOURS,
            },
    {
        match self.auto_restart_interval_hours {
            Some(hours) => hours,
            None => DEFAULT_AUTO_RESTART_INTERVAL_HOURS,
        }
    }

    /// Sets the hours between automatic restarts.
    pub fn set_auto_restart_interval_hours(&mut self, hours: u8)
        ensures
            *final(self) == (Database { auto_restart_interval_hours: Some(hours), ..*old(self) }),
    {
        self.auto_restart_interval_hours = Some(hours);
    }

    /// Clears the binding of every device that is bound to a password; tells whether
    /// there was one.
    pub fn clear_device_binding(&mut self, password: &str) -> (r: bool)
        requires
            old(self).wf(),
        ensures
            final(self).wf(),
            *final(self) == (Database { devices: final(self).devices, ..*old(self) }),
            bindings_cleared(
                old(self).devices@,
                final(self).devices@,
                |bound: Seq<char>| bound == password@,
            ),
            r == exists|k: Seq<char>| #[trigger]
                old(self).devices@.contains_key(k) && old(self).devices@[k].bound_password@
                    == password@,
    {
        let ghost all = self.devices.entries@;
        let ghost drop = |bound: Seq<char>| bound == password@;
        let mut changed = false;
        let mut i: usize = 0;
        while i < self.devices.entries.len()
            invariant
                i <= all.len(),
                old(self).wf(),
                all == old(self).devices.entries@,
                *self == (Database { devices: self.devices, ..*old(self) }),
                drop == |bound: Seq<char>| bound == password@,
                partly_cleared(all, self.devices.entries@, i as int, drop),
                changed == exists|j: int|
                    0 <= j < i && (#[trigger] all[j]).value.bound_password@ == password@,
            decreases all.len() - i,
        {
            if same_text(self.devices.entries[i].value.bound_password.as_str(), password) {
                clear_binding(&mut self.devices.entries, i);
                changed = true;
            }
            i = i + 1;
        }
        proof {
            lemma_cleared(all, self.devices.entries@, drop);
            if changed {
                let j = choose|j: int|
                    0 <= j < i && (#[trigger] all[j]).value.bound_password@ == password@;
                lemma_map_of_index(all, j);
                assert(old(self).devices@.contains_key(all[j].key@));
            }
            if exists|k: Seq<char>| #[trigger]
                old(self).devices@.contains_key(k) && old(self).devices@[k].bound_password@
                    == password@ {
                let k = choose|k: Seq<char>| #[trigger]
                    old(self).devices@.contains_key(k) && old(self).devices@[k].bound_password@
                        == password@;
                lemma_map_of_domain(all, k);
                let j = choose|j: int| 0 <= j < all.len() && (#[trigger] all[j]).key@ == k;
                lemma_map_of_index(all, j);
                assert(all[j].value.bound_password@ == password@);
            }
        }
        changed
    }

    /// Clears bindings to passwords that are not there. The main password is not listed
    /// among the passwords, so bindings to it stay.
    pub fn prune_dangling_device_bindings(&mut self) -> (r: bool)
        requires
            old(self).wf(),
        ensures
            final(self).wf(),
            *final(self) == (Database { devices: final(self).devices, ..*old(self) }),
            bindings_cleared(
                old(self).devices@,
                final(self).devices@,
                |bound: Seq<char>|
                    dangling(bound, old(self).main_password@, old(self).passwords@),
            ),
            r == exists|k: Seq<char>| #[trigger]
                old(self).devices@.contains_key(k) && dangling(
                    old(self).devices@[k].bound_password@,
                    old(self).main_password@,
                    old(self).passwords@,
                ),
    {
        let ghost all = self.devices.entries@;
        let ghost drop = |bound: Seq<char>|
            dangling(bound, old(self).main_password@, old(self).passwords@);
        let mut changed = false;
        let mut i: usize = 0;
        while i < self.devices.entries.len()
            invariant
                i <= all.len(),
                old(self).wf(),
                all == old(self).devices.entries@,
                *self == (Database { devices: self.devices, ..*old(self) }),
                drop == |bound: Seq<char>|
                    dangling(bound, old(self).main_password@, old(self).passwords@),
                partly_cleared(all, self.devices.entries@, i as int, drop),
                changed == exists|j: int|
                    0 <= j < i && dangling(
                        (#[trigger] all[j]).value.bound_password@,
                        old(self).main_password@,
                        old(self).passwords@,
                    ),
            decreases all.len() - i,
        {
            let keep = {
                let bound = self.devices.entries[i].value.bound_password.as_str();
                bound.is_empty() || same_text(bound, self.main_password.as_str())
                    || self.passwords.contains_key(bound)
            };
            if !keep {
                clear_binding(&mut self.devices.entries, i);
                changed = true;
            }
            i = i + 1;
        }
        proof {
            lemma_cleared(all, self.devices.entries@, drop);
            if changed {
                let j = choose|j: int|
                    0 <= j < i && dangling(
                        (#[trigger] all[j]).value.bound_password@,
                        old(self).main_password@,
                        old(self).passwords@,
                    );
                lemma_map_of_index(all, j);
                assert(old(self).devices@.contains_key(all[j].key@));
            }
            if exists|k: Seq<char>| #[trigger]
                old(self).devices@.contains_key(k) && dangling(
                    old(self).devices@[k].bound_password@,
                    old(self).main_password@,
                    old(self).passwords@,
                ) {
                let k = choose|k: Seq<char>| #[trigger]
                    old(self).devices@.contains_key(k) && dangling(
                        old(self).devices@[k].bound_password@,
                        old(self).main_password@,
                        old(self).passwords@,
                    );
                lemma_map_of_domain(all, k);
                let j = choose|j: int| 0 <= j < all.len() && (#[trigger] all[j]).key@ == k;
                lemma_map_of_index(all, j);
                assert(dangling(
                    all[j].value.bound_password@,
                    old(self).main_password@,
                    old(self).passwords@,
                ));
            }
        }
        changed
    }
}

/// A binding to a password that is not there.
pub open spec fn dangling(
    bound: Seq<char>,
    main_password: Seq<char>,
    passwords: Map<Seq<char>, PasswordEntry>,
) -> bool {
    bound.len() > 0 && bound != main_password && !passwords.contains_key(bound)
}

/// Entries of which the first `n` have had their bindings cleared.
spec fn partly_cleared(
    all: Seq<TextEntry<ClientDevice>>,
    now: Seq<TextEntry<ClientDevice>>,
    n: int,
    drop: spec_fn(Seq<char>) -> bool,
) -> bool {
    &&& now.len() == all.len()
    &&& forall|j: int|
        0 <= j < n ==> {
            let o = all[j];
            let c = #[trigger] now[j];
            &&& c.key == o.key
            &&& c.value.bound_password@ == (if drop(o.value.bound_password@) {
                Seq::empty()
            } else {
                o.value.bound_password@
            })
            &&& c.value == ClientDevice { bound_password: c.value.bound_password, ..o.value }
        }
    &&& forall|j: int| n <= j < all.len() ==> #[trigger] now[j] == all[j]
}

proof fn lemma_cleared(
    all: Seq<TextEntry<ClientDevice>>,
    now: Seq<TextEntry<ClientDevice>>,
    drop: spec_fn(Seq<char>) -> bool,
)
    requires
        keys_sorted(all),
        partly_cleared(all, now, all.len() as int, drop),
    ensures
        keys_sorted(now),
        bindings_cleared(map_of(all), map_of(now), drop),
{
    assert forall|i: int, j: int|
        #![trigger now[i], now[j]]
        0 <= i < j < now.len() implies text_lt(now[i].key@, now[j].key@) by {
        assert(text_lt(all[i].key@, all[j].key@));
    }
    let o = map_of(all);
    let n = map_of(now);
    assert forall|k: Seq<char>| o.contains_key(k) <==> n.contains_key(k) by {
        lemma_map_of_domain(all, k);
        lemma_map_of_domain(now, k);
        if o.contains_key(k) {
            let i = choose|i: int| 0 <= i < all.len() && (#[trigger] all[i]).key@ == k;
            assert(now[i].key@ == k);
        }
        if n.contains_key(k) {
            let i = choose|i: int| 0 <= i < now.len() && (#[trigger] now[i]).key@ == k;
            assert(all[i].key@ == k);
        }
    }
    assert(n.dom() =~= o.dom());
    assert forall|k: Seq<char>| #[trigger] o.contains_key(k) implies ({
        let a = o[k];
        let b = n[k];
        &&& b.bound_password@ == (if drop(a.bound_password@) {
            Seq::empty()
        } else {
            a.bound_password@
        })
        &&& b == ClientDevice { bound_password: b.bound_password, ..a }
    }) by {
        lemma_map_of_domain(all, k);
        let i = choose|i: int| 0 <= i < all.len() && (#[trigger] all[i]).key@ == k;
        lemma_map_of_index(all, i);
        lemma_map_of_index(now, i);
        assert(now[i].key@ == k);
    }
}

fn clear_binding(entries: &mut Vec<TextEntry<ClientDevice>>, at: usize)
    requires
        at < old(entries)@.len(),
    ensures
        final(entries)@.len() == old(entries)@.len(),
        forall|j: int|
            0 <= j < old(entries)@.len() && j != at ==> #[trigger] final(entries)@[j] == old(entries)@[j],
        ({
            let o = old(entries)@[at as int];
            let c = final(entries)@[at as int];
            &&& c.key == o.key
            &&& c.value.bound_password@ == Seq::<char>::empty()
            &&& c.value == ClientDevice { bound_password: c.value.bound_password, ..o.value }
        }),
{
    let key = entries[at].key.clone();
    let mut device = entries[at].value.copy();
    device.bound_password = String::new();
    entries.set(at, TextEntry { key, value: device });
}

/// After pruning no device is bound to a password that is not there.
pub proof fn law_prune_leaves_no_dangling(
    old_d: Map<Seq<char>, ClientDevice>,
    new_d: Map<Seq<char>, ClientDevice>,
    main_password: Seq<char>,
    passwords: Map<Seq<char>, PasswordEntry>,
    k: Seq<char>,
)
    requires
        bindings_cleared(
            old_d,
            new_d,
            |bound: Seq<char>| dangling(bound, main_password, passwords),
        ),
        new_d.contains_key(k),
    ensures
        !dangling(new_d[k].bound_password@, main_password, passwords),
{
    assert(old_d.dom().contains(k));
    assert(old_d.contains_key(k));
}

/// Whether a password has expired at a time; an expiry of zero means never.
pub fn is_expired(entry: &PasswordEntry, now: i64) -> (r: bool)
    ensures
        r == (entry.expires_at != 0 && now > entry.expires_at),
{
    entry.expires_at != 0 && now > entry.expires_at
}

/// Whether some device has an address.
pub open spec fn ip_used(devices: Map<Seq<char>, ClientDevice>, ip: Seq<char>) -> bool {
    exists|k: Seq<char>| #[trigger] devices.contains_key(k) && devices[k].ip@ == ip
}

fn device_has_ip(devices: &TextMap<ClientDevice>, ip: &str) -> (r: bool)
    requires
        devices.wf(),
    ensures
        r == ip_used(devices@, ip@),
{
    let mut i: usize = 0;
    while i < devices.entries.len()
        invariant
            i <= devices.entries@.len(),
            devices.wf(),
            forall|j: int| 0 <= j < i ==> (#[trigger] devices.entries@[j]).value.ip@ != ip@,
        decreases devices.entries@.len() - i,
    {
        if same_text(devices.entries[i].value.ip.as_str(), ip) {
            proof {
                lemma_map_of_index(devices.entries@, i as int);
                assert(devices@.contains_key(devices.entries@[i as int].key@));
            }
            return true;
        }
        i = i + 1;
    }
    proof {
        if ip_used(devices@, ip@) {
            let k = choose|k: Seq<char>| #[trigger]
                devices@.contains_key(k) && devices@[k].ip@ == ip@;
            lemma_map_of_domain(devices.entries@, k);
            let j = choose|j: int|
                0 <= j < devices.entries@.len() && (#[trigger] devices.entries@[j]).key@ == k;
            lemma_map_of_index(devices.entries@, j);
            assert(devices.entries@[j].value.ip@ == ip@);
        }
    }
    false
}

/// The lowest free address of the network for a device.
pub fn get_next_ip(db: &Database, network: &TunnelNetwork) -> (r: Option<String>)
    requires
        db.wf(),
    ensures
        match r {
            Some(ip) => exists|host: u8| #[trigger]
                free_host(db.devices@, network.prefix@, host) && ip@ == ipv4_text(
                    host_address(network.prefix@, host),
                ) && forall|h: u8| h < host ==> !#[trigger] free_host(
                    db.devices@,
                    network.prefix@,
                    h,
                ),
            None => forall|h: u8| !#[trigger] free_host(db.devices@, network.prefix@, h),
        },
{
    let mut host: u8 = FIRST_CLIENT_HOST;
    while host <= LAST_CLIENT_HOST
        invariant
            FIRST_CLIENT_HOST <= host <= LAST_CLIENT_HOST + 1,
            db.wf(),
            forall|h: u8| h < host ==> !#[trigger] free_host(db.devices@, network.prefix@, h),
        decreases LAST_CLIENT_HOST + 1 - host,
    {
        let ip = network.client_ip(host);
        if !device_has_ip(&db.devices, ip.as_str()) {
            proof {
                assert(free_host(db.devices@, network.prefix@, host));
            }
            return Some(ip);
        }
        host = host + 1;
    }
    None
}

/// A host number that may be given to a device and that no device has.
pub open spec fn free_host(
    devices: Map<Seq<char>, ClientDevice>,
    prefix: Seq<u8>,
    host: u8,
) -> bool {
    FIRST_CLIENT_HOST <= host <= LAST_CLIENT_HOST && !ip_used(
        devices,
        ipv4_text(host_address(prefix, host)),
    )
}

/// The address that a session has: that of its device, or else that of the device of
/// its password.
pub open spec fn session_ip(
    devices: Map<Seq<char>, ClientDevice>,
    passwords: Map<Seq<char>, PasswordEntry>,
    main_password: Seq<char>,
    session_password: Seq<char>,
    device_id: Seq<char>,
) -> Option<Seq<char>> {
    if device_id.len() > 0 && devices.contains_key(device_id) {
        Some(devices[device_id].ip@)
    } else if session_password != main_password && passwords.contains_key(session_password)
        && passwords[session_password].device_id@.len() > 0 {
        let bound = passwords[session_password].device_id@;
        if devices.contains_key(bound) {
            Some(devices[bound].ip@)
        } else {
            None
        }
    } else {
        None
    }
}

/// The address that a session has.
pub fn resolve_session_ip(db: &Database, session_password: &str, device_id: &str) -> (r: Option<
    String,
>)
    requires
        db.wf(),
    ensures
        (match r {
            Some(ip) => Some(ip@),
            None => None,
        }) == session_ip(
            db.devices@,
            db.passwords@,
            db.main_password@,
            session_password@,
            device_id@,
        ),
{
    if !device_id.is_empty() {
        if let Some(device) = db.devices.get(device_id) {
            return Some(device.ip.clone());
        }
    }
    if same_text(session_password, db.main_password.as_str()) {
        return None;
    }
    match db.passwords.get(session_password) {
        None => None,
        Some(entry) => {
            if entry.device_id.as_str().is_empty() {
                return None;
            }
            match db.devices.get(entry.device_id.as_str()) {
                Some(device) => Some(device.ip.clone()),
                None => None,
            }
        },
    }
}

/// A profile without a port gets port 45000 and is otherwise as it was; one with a port is
/// left alone.
pub proof fn law_missing_ports_get_the_default(profiles: Seq<LocalProxyProfile>, i: int)
    requires
        0 <= i < profiles.len(),
    ensures
        with_ports(profiles).len() == profiles.len(),
        profiles[i].port != 0 ==> with_ports(profiles)[i] == profiles[i],
        profiles[i].port == 0 ==> with_ports(profiles)[i].port == 45000,
        with_ports(profiles)[i] == (LocalProxyProfile {
            port: with_ports(profiles)[i].port,
            ..profiles[i]
        }),
{
}

/// Normalizing keeps a selection that names a profile and drops any other.
pub proof fn law_selection_names_a_profile(
    profiles: Seq<LocalProxyProfile>,
    id: Seq<char>,
    i: int,
)
    ensures
        0 <= i < profiles.len() && profiles[i].id@ == id ==> valid_active(profiles, id) == id,
        (forall|j: int| 0 <= j < profiles.len() ==> (#[trigger] profiles[j]).id@ != id)
            ==> valid_active(profiles, id).len() == 0,
{
    lemma_profile_index(profiles, id);
}

/// Giving up a password unbinds the devices that were bound to it, and nothing else of any
/// device changes.
pub proof fn law_unbinding_touches_bindings_only(
    old_d: Map<Seq<char>, ClientDevice>,
    new_d: Map<Seq<char>, ClientDevice>,
    password: Seq<char>,
    k: Seq<char>,
)
    requires
        bindings_cleared(old_d, new_d, |bound: Seq<char>| bound == password),
    ensures
        new_d.contains_key(k) <==> old_d.contains_key(k),
        old_d.contains_key(k) && old_d[k].bound_password@ == password
            ==> new_d[k].bound_password@.len() == 0,
        old_d.contains_key(k) && old_d[k].bound_password@ != password ==> new_d[k].bound_password@
            == old_d[k].bound_password@,
        old_d.contains_key(k) ==> new_d[k].device_id == old_d[k].device_id && new_d[k].ip
            == old_d[k].ip && new_d[k].priv_key == old_d[k].priv_key && new_d[k].pub_key
            == old_d[k].pub_key && new_d[k].up_bytes == old_d[k].up_bytes && new_d[k].down_bytes
            == old_d[k].down_bytes && new_d[k].last_session_salt == old_d[k].last_session_salt
            && new_d[k].last_generation_id == old_d[k].last_generation_id,
{
    assert(new_d.dom().contains(k) <==> old_d.dom().contains(k));
}

/// A binding dangles where it names a password that is neither the main one nor in the
/// list; no binding at all does not dangle.
pub proof fn law_dangling_bindings(
    bound: Seq<char>,
    main_password: Seq<char>,
    passwords: Map<Seq<char>, PasswordEntry>,
)
    ensures
        bound.len() == 0 ==> !dangling(bound, main_password, passwords),
        bound == main_password ==> !dangling(bound, main_password, passwords),
        passwords.contains_key(bound) ==> !dangling(bound, main_password, passwords),
        bound.len() > 0 && bound != main_password && !passwords.contains_key(bound) ==> dangling(
            bound,
            main_password,
            passwords,
        ),
{
}

/// Clients get the hosts from 2 to 250 that no device has.
pub proof fn law_client_hosts_are_free(
    devices: Map<Seq<char>, ClientDevice>,
    prefix: Seq<u8>,
    host: u8,
    k: Seq<char>,
)
    ensures
        free_host(devices, prefix, host) ==> 2 <= host <= 250,
        free_host(devices, prefix, host) && devices.contains_key(k) ==> devices[k].ip@ != ipv4_text(
            Ipv4 { a: prefix[0], b: prefix[1], c: prefix[2], d: host },
        ),
        2 <= host <= 250 && !free_host(devices, prefix, host) ==> exists|d: Seq<char>| #[trigger]
            devices.contains_key(d) && devices[d].ip@ == ipv4_text(host_address(prefix, host)),
{
}

/// A session has the address of its own device; without a known device, that of the device
/// which its password is bound to. The main password is bound to no device, and a session
/// without either has no address.
pub proof fn law_session_address(
    devices: Map<Seq<char>, ClientDevice>,
    passwords: Map<Seq<char>, PasswordEntry>,
    main_password: Seq<char>,
    password: Seq<char>,
    device_id: Seq<char>,
)
    ensures
        ({
            let ip = session_ip(devices, passwords, main_password, password, device_id);
            let known = device_id.len() > 0 && devices.contains_key(device_id);
            &&& known ==> ip == Some(devices[device_id].ip@)
            &&& !known && password == main_password ==> ip is None
            &&& !known && !passwords.contains_key(password) ==> ip is None
            &&& !known && password != main_password && passwords.contains_key(password) ==> {
                let bound = passwords[password].device_id@;
                &&& bound.len() > 0 && devices.contains_key(bound) ==> ip == Some(devices[bound].ip@)
                &&& bound.len() == 0 || !devices.contains_key(bound) ==> ip is None
            }
        }),
{
}

/// Whether a profile is what a single-proxy setting describes.
pub open spec fn single_profile(
    r: LocalProxyProfile,
    id: String,
    port: Option<u64>,
    username: String,
    password: String,
) -> bool {
    let wanted = match port {
        Some(p) => p as nat % 0x10000,
        None => DEFAULT_LOCAL_PROXY_PORT as nat,
    };
    &&& r.host@ == "127.0.0.1"@
    &&& r.id == id
    &&& r.name@ == "SOCKS5 :"@ + dec(wanted)
    &&& r.port == (if wanted == 0 {
        DEFAULT_LOCAL_PROXY_PORT as nat
    } else {
        wanted
    })
    &&& r.username == username
    &&& r.password == password
}

/// Whether a state is what a stored value describes.
pub open spec fn state_restored(
    r: LocalProxyState,
    profiles: Option<Vec<LocalProxyProfile>>,
    active_profile_id: String,
    single: Option<SingleProxy>,
    id: String,
) -> bool {
    match profiles {
        Some(list) => r.profiles == list && r.active_profile_id == active_profile_id,
        None => match single {
            Some(proxy) => {
                &&& r.profiles@.len() == 1
                &&& single_profile(
                    r.profiles@[0],
                    id,
                    proxy.port,
                    proxy.username,
                    proxy.password,
                )
                &&& r.active_profile_id@ == (if proxy.enabled {
                    id@
                } else {
                    Seq::empty()
                })
            },
            None => r.profiles@.len() == 0 && r.active_profile_id@ == Seq::<char>::empty(),
        },
    }
}

/// A single proxy is a local one, named after its port and with the credentials it had; a
/// missing port is 45000.
pub proof fn law_single_proxies_become_profiles(
    r: LocalProxyProfile,
    id: String,
    port: Option<u64>,
    username: String,
    password: String,
)
    requires
        single_profile(r, id, port, username, password),
    ensures
        r.host@ == "127.0.0.1"@ && r.id == id && r.username == username && r.password == password,
        port is Some && 0 < port->0 < 65536 ==> r.port == port->0 && r.name@ == "SOCKS5 :"@ + dec(
            port->0 as nat,
        ),
        port is None ==> r.port == 45000 && r.name@ == "SOCKS5 :"@ + dec(45000),
        port == Some(0u64) ==> r.port == 45000,
        r.port != 0,
{
}

/// A list is taken as it is; a single proxy becomes the only profile, which is selected where
/// it was enabled; nothing stored means nothing selected.
pub proof fn law_stored_proxies_are_restored(
    r: LocalProxyState,
    profiles: Option<Vec<LocalProxyProfile>>,
    active_profile_id: String,
    single: Option<SingleProxy>,
    id: String,
)
    requires
        state_restored(r, profiles, active_profile_id, single, id),
    ensures
        (profiles matches Some(list) ==> r.profiles == list && r.active_profile_id
            == active_profile_id),
        (profiles is None && single is None ==> r.profiles@.len() == 0 && r.active_profile_id@.len()
            == 0),
        (profiles is None && (single matches Some(proxy) && proxy.enabled) ==> r.profiles@.len()
            == 1 && r.active_profile_id@ == r.profiles@[0].id@),
        (profiles is None && (single matches Some(proxy) && !proxy.enabled) ==> r.profiles@.len()
            == 1 && r.active_profile_id@.len() == 0),
        profiles is None && single is Some ==> r.profiles@[0].id == id && r.profiles@[0].username
            == single->0.username && r.profiles@[0].password == single->0.password,
{
}

} // verus!
