//! What the server decides while it starts: command, settings, addresses and restarts.
use vstd::prelude::*;
use crate::addr::{
    IpAddress, Ipv4, ipv4_text, law_ipv4_text_injective, lemma_ipv4_text_chars,
    lemma_ipv4_text_concat,
};
use crate::server::model::{
    ClientDevice, DEFAULT_AUTO_RESTART_INTERVAL_HOURS, Database, FIRST_CLIENT_HOST,
    LAST_CLIENT_HOST,
};
use crate::server::net_setup::{TunnelNetwork, host_address, network};
use crate::text::{
    chars_of, dec, is_digit, items_of, join, join_with, law_numbers_are_read_back, lemma_dec,
    lemma_split_join, lemma_text_lt_total, list_items, parse_number, parse_unsigned, same_text,
    string_of, text_lt, texts, trim, trim_end, trim_start, trimmed, trimmed_items, views,
};
use crate::text_map::{TextEntry, TextMap, keys_sorted, lemma_map_of_domain, lemma_map_of_index};

verus! {

/// Resolver that is used where none is configured.
pub open spec fn default_dns() -> Seq<char> {
    "1.1.1.1"@
}

/// Why resolvers were refused.
#[derive(Debug)]
pub enum DnsError {
    /// There must be one or two.
    Count,
    /// This is no IPv4 address.
    InvalidAddress(String),
}

/// Whether a text is an IPv4 address.
pub open spec fn is_ipv4_text(s: Seq<char>) -> bool {
    exists|ip: Ipv4| #[trigger] ipv4_text(ip) == s
}

/// Whether `r` is what a list of resolvers is normalized to: one or two addresses,
/// separated by a comma.
pub open spec fn is_normal_dns(value: Seq<char>, r: Result<String, DnsError>) -> bool {
    let items = list_items(value, ',');
    if items.len() == 0 || items.len() > 2 {
        r matches Err(DnsError::Count)
    } else if !is_ipv4_text(items[0]) {
        r matches Err(DnsError::InvalidAddress(a)) && a@ == items[0]
    } else if items.len() == 2 && !is_ipv4_text(items[1]) {
        r matches Err(DnsError::InvalidAddress(a)) && a@ == items[1]
    } else {
        r is Ok && r->Ok_0@ == join(items, seq![','])
    }
}

fn ipv4_like(s: &[char]) -> (r: bool)
    ensures
        r == is_ipv4_text(s@),
{
    match Ipv4::parse(s) {
        Some(ip) => {
            proof {
                assert(ipv4_text(ip) == s@);
            }
            true
        },
        None => false,
    }
}

/// Normalizes a list of resolvers.
pub fn normalize_dns(value: &str) -> (r: Result<String, DnsError>)
    ensures
        is_normal_dns(value@, r),
{
    let chars = chars_of(value);
    let items = items_of(chars.as_slice(), ',');
    let ghost v = views(items@);
    if items.len() == 0 || items.len() > 2 {
        return Err(DnsError::Count);
    }
    proof {
        assert(v[0] == items@[0]@);
        if items@.len() == 2 {
            assert(v[1] == items@[1]@);
        }
    }
    if !ipv4_like(items[0].as_slice()) {
        return Err(DnsError::InvalidAddress(string_of(items[0].as_slice())));
    }
    if items.len() == 2 && !ipv4_like(items[1].as_slice()) {
        return Err(DnsError::InvalidAddress(string_of(items[1].as_slice())));
    }
    let mut comma: Vec<char> = Vec::new();
    comma.push(',');
    proof {
        assert(comma@ =~= seq![',']);
    }
    let joined = join_with(&items, comma.as_slice());
    Ok(string_of(joined.as_slice()))
}

/// Normalizing what was normalized gives it back.
pub proof fn law_normal_dns_stable(value: Seq<char>)
    requires
        list_items(value, ',').len() == 1 || list_items(value, ',').len() == 2,
        forall|i: int|
            0 <= i < list_items(value, ',').len() ==> is_ipv4_text(
                #[trigger] list_items(value, ',')[i],
            ),
    ensures
        list_items(join(list_items(value, ','), seq![',']), ',') == list_items(value, ','),
{
    let items = list_items(value, ',');
    assert forall|i: int| 0 <= i < items.len() implies !(#[trigger] items[i]).contains(',')
        && trim(items[i]) == items[i] && items[i].len() > 0 by {
        let ip = choose|ip: Ipv4| #[trigger] ipv4_text(ip) == items[i];
        lemma_ipv4_text_chars(ip, ',');
        lemma_ipv4_text_trimmed(ip);
    }
    lemma_split_join(items, ',');
    reveal_with_fuel(trimmed_items, 3);
    let t = trimmed_items(items);
    if items.len() == 1 {
        assert(items.drop_last() =~= Seq::<Seq<char>>::empty());
        assert(t =~= items);
    } else {
        let d = items.drop_last();
        assert(d.drop_last() =~= Seq::<Seq<char>>::empty());
        assert(d.last() == items[0]);
        assert(t =~= items);
    }
}

proof fn lemma_ipv4_text_trimmed(ip: Ipv4)
    ensures
        trim(ipv4_text(ip)) == ipv4_text(ip),
        ipv4_text(ip).len() > 0,
{
    let s = ipv4_text(ip);
    lemma_ipv4_text_concat(ip);
    lemma_dec(ip.a as nat);
    lemma_dec(ip.d as nat);
    assert(s[0] == dec(ip.a as nat)[0]);
    assert(s.last() == dec(ip.d as nat).last());
    assert(is_digit(dec(ip.a as nat)[0]));
    assert(is_digit(dec(ip.d as nat)[dec(ip.d as nat).len() - 1]));
    assert(trim_start(s) == s);
    assert(trim_end(s) == s);
}

// ---------------------------------------------------------------------------
// Commands
// ---------------------------------------------------------------------------

/// What the program was called for.
#[derive(Clone, Copy, Debug, PartialEq, Eq, Structural)]
pub enum Command {
    Help,
    Start,
    Stop,
    Restart,
    Dpi(usize),
    Syscalls,
    Perf,
    PerfUsage,
    Metric,
    MetricUsage,
    /// To run the server with the options that follow.
    Serve,
}

/// Whether the argument at a position is there and is `text`.
pub open spec fn arg_is(args: Seq<Seq<char>>, i: int, text: Seq<char>) -> bool {
    i < args.len() && args[i] == text
}

/// What the arguments, the program's name first, call for.
pub open spec fn command_of(args: Seq<Seq<char>>) -> Command {
    if args.len() == 1 || (args.len() == 2 && (args[1] == "help"@ || args[1] == "--help"@ || args[1]
        == "-h"@)) {
        Command::Help
    } else if arg_is(args, 1, "start"@) {
        Command::Start
    } else if arg_is(args, 1, "stop"@) {
        Command::Stop
    } else if arg_is(args, 1, "restart"@) {
        Command::Restart
    } else if arg_is(args, 1, "dpi"@) {
        Command::Dpi(
            if args.len() >= 4 && args[2] == "s"@ {
                match parse_unsigned(args[3], usize::MAX as nat) {
                    Some(n) => n as usize,
                    None => 0,
                }
            } else {
                0
            },
        )
    } else if arg_is(args, 1, "syscalls"@) {
        Command::Syscalls
    } else if arg_is(args, 1, "perf"@) {
        if arg_is(args, 2, "all"@) {
            Command::Perf
        } else {
            Command::PerfUsage
        }
    } else if arg_is(args, 1, "metric"@) {
        if arg_is(args, 2, "all"@) {
            Command::Metric
        } else {
            Command::MetricUsage
        }
    } else {
        Command::Serve
    }
}

fn argument_is(args: &Vec<String>, i: usize, text: &str) -> (r: bool)
    ensures
        r == arg_is(texts(args@), i as int, text@),
{
    i < args.len() && same_text(args[i].as_str(), text)
}

/// Reads what the program was called for.
pub fn parse_command(args: &Vec<String>) -> (r: Command)
    ensures
        r == command_of(texts(args@)),
{
    if args.len() == 1 {
        return Command::Help;
    }
    if args.len() == 2 && (argument_is(args, 1, "help") || argument_is(args, 1, "--help")
        || argument_is(args, 1, "-h")) {
        return Command::Help;
    }
    if argument_is(args, 1, "start") {
        Command::Start
    } else if argument_is(args, 1, "stop") {
        Command::Stop
    } else if argument_is(args, 1, "restart") {
        Command::Restart
    } else if argument_is(args, 1, "dpi") {
        if args.len() >= 4 && argument_is(args, 2, "s") {
            let chars = chars_of(args[3].as_str());
            match parse_number(chars.as_slice(), usize::MAX as u64) {
                Some(n) => Command::Dpi(n as usize),
                None => Command::Dpi(0),
            }
        } else {
            Command::Dpi(0)
        }
    } else if argument_is(args, 1, "syscalls") {
        Command::Syscalls
    } else if argument_is(args, 1, "perf") {
        if argument_is(args, 2, "all") {
            Command::Perf
        } else {
            Command::PerfUsage
        }
    } else if argument_is(args, 1, "metric") {
        if argument_is(args, 2, "all") {
            Command::Metric
        } else {
            Command::MetricUsage
        }
    } else {
        Command::Serve
    }
}

/// The options that select something other than the server.
#[derive(Clone, Copy, Debug, PartialEq, Eq, Structural)]
pub struct ModeOptions {
    pub start: bool,
    pub stop: bool,
    pub restart: bool,
    pub dpi: bool,
    pub samples: usize,
    pub tproxy_child: bool,
}

/// What is run.
#[derive(Clone, Copy, Debug, PartialEq, Eq, Structural)]
pub enum Mode {
    Start,
    Stop,
    Restart,
    Dpi(usize),
    /// Refused: the server needs the rights of the superuser.
    NotRoot,
    TproxyChild,
    Server,
}

/// What is run for given options and user.
pub open spec fn mode_of(options: ModeOptions, user: u32) -> Mode {
    if options.start {
        Mode::Start
    } else if options.stop {
        Mode::Stop
    } else if options.restart {
        Mode::Restart
    } else if options.dpi || options.samples > 0 {
        Mode::Dpi(options.samples)
    } else if user != 0 {
        Mode::NotRoot
    } else if options.tproxy_child {
        Mode::TproxyChild
    } else {
        Mode::Server
    }
}

/// Only the superuser runs the server or its child; controlling a running server comes
/// before both, and starting before stopping before restarting.
pub proof fn law_modes_have_an_order(options: ModeOptions, user: u32)
    ensures
        options.start <==> mode_of(options, user) is Start,
        options.stop && !options.start <==> mode_of(options, user) is Stop,
        options.restart && !options.start && !options.stop <==> mode_of(options, user) is Restart,
        mode_of(options, user) matches Mode::Dpi(n) ==> n == options.samples && (options.dpi || n
            > 0),
        !options.start && !options.stop && !options.restart && (options.dpi || options.samples > 0)
            ==> mode_of(options, user) is Dpi,
        mode_of(options, user) is Server ==> user == 0 && !options.tproxy_child,
        mode_of(options, user) is TproxyChild ==> user == 0 && options.tproxy_child,
        mode_of(options, user) is NotRoot ==> user != 0,
        !options.start && !options.stop && !options.restart && !options.dpi && options.samples == 0
            && user != 0 ==> mode_of(options, user) is NotRoot,
{
}

/// Selects what is run.
pub fn select_mode(options: ModeOptions, user: u32) -> (r: Mode)
    ensures
        r == mode_of(options, user),
{
    if options.start {
        Mode::Start
    } else if options.stop {
        Mode::Stop
    } else if options.restart {
        Mode::Restart
    } else if options.dpi || options.samples > 0 {
        Mode::Dpi(options.samples)
    } else if user != 0 {
        Mode::NotRoot
    } else if options.tproxy_child {
        Mode::TproxyChild
    } else {
        Mode::Server
    }
}

/// Whether the parent of a proxy child is gone. In a container the server itself is
/// process one, so a healthy child has that parent.
pub fn tproxy_parent_exited_during_startup(parent_pid: i32, docker_mode: bool) -> (r: bool)
    ensures
        r == (parent_pid == 1 && !docker_mode),
{
    parent_pid == 1 && !docker_mode
}

// ---------------------------------------------------------------------------
// Addresses
// ---------------------------------------------------------------------------

/// Why saved addresses cannot be taken over.
#[derive(Clone, Copy, Debug, PartialEq, Eq, Structural)]
pub enum MigrationError {
    /// A saved address is no IPv4 address.
    InvalidAddress,
    /// A host number is out of range or used twice.
    HostConflict,
}

/// The host number of a device.
pub open spec fn device_host(d: ClientDevice) -> Option<u8> {
    if is_ipv4_text(d.ip@) {
        Some((choose|ip: Ipv4| #[trigger] ipv4_text(ip) == d.ip@).d)
    } else {
        None
    }
}

/// Whether the first `n` devices have addresses whose host numbers may be kept: in range
/// and each used once.
pub open spec fn hosts_ok(devices: Seq<TextEntry<ClientDevice>>, n: int) -> bool {
    &&& forall|i: int|
        0 <= i < n ==> device_host((#[trigger] devices[i]).value) is Some && FIRST_CLIENT_HOST
            <= device_host(devices[i].value).unwrap() <= LAST_CLIENT_HOST
    &&& forall|i: int, j: int|
        #![trigger devices[i], devices[j]]
        0 <= i < j < n ==> device_host(devices[i].value) != device_host(devices[j].value)
}

/// Whether `new` is a device moved to another network with its host number.
pub open spec fn device_moved(old_d: ClientDevice, new_d: ClientDevice, prefix: Seq<u8>) -> bool {
    &&& device_host(old_d) is Some
    &&& new_d.ip@ == ipv4_text(host_address(prefix, device_host(old_d).unwrap()))
    &&& new_d == (ClientDevice { ip: new_d.ip, ..old_d })
}

/// Whether the first `n` devices were moved and the others are as they were.
pub open spec fn moved_so_far(
    before: Seq<TextEntry<ClientDevice>>,
    after: Seq<TextEntry<ClientDevice>>,
    n: int,
    prefix: Seq<u8>,
) -> bool {
    &&& after.len() == before.len()
    &&& forall|k: int|
        0 <= k < n ==> (#[trigger] after[k]).key == before[k].key && device_moved(
            before[k].value,
            after[k].value,
            prefix,
        )
    &&& forall|k: int| n <= k < before.len() ==> #[trigger] after[k] == before[k]
}

fn host_of(ip: &str) -> (r: Option<u8>)
    ensures
        forall|d: ClientDevice| d.ip@ == ip@ ==> #[trigger] device_host(d) == r,
{
    let chars = chars_of(ip);
    match Ipv4::parse(chars.as_slice()) {
        Some(found) => {
            proof {
                assert(ipv4_text(found) == ip@);
                let c = choose|x: Ipv4| #[trigger] ipv4_text(x) == ip@;
                law_ipv4_text_injective(c, found);
            }
            Some(found.d)
        },
        None => None,
    }
}

/// Moves all saved devices to the configured network. Devices keep their host numbers,
/// so that a change of the network keeps their identities.
pub fn migrate_device_addresses(db: &mut Database, network: &TunnelNetwork) -> (r: Result<
    (),
    MigrationError,
>)
    requires
        old(db).wf(),
    ensures
        final(db).wf(),
        *final(db) == (Database { devices: final(db).devices, ..*old(db) }),
        r is Ok <==> hosts_ok(old(db).devices.entries@, old(db).devices.entries@.len() as int),
        r is Ok ==> moved_so_far(
            old(db).devices.entries@,
            final(db).devices.entries@,
            old(db).devices.entries@.len() as int,
            network.prefix@,
        ),
        r is Err ==> exists|i: int|
            {
                &&& 0 <= i < old(db).devices.entries@.len()
                &&& #[trigger] hosts_ok(old(db).devices.entries@, i)
                &&& !hosts_ok(old(db).devices.entries@, i + 1)
                &&& r == Err::<(), MigrationError>(
                    if device_host(old(db).devices.entries@[i].value) is None {
                        MigrationError::InvalidAddress
                    } else {
                        MigrationError::HostConflict
                    },
                )
                &&& moved_so_far(
                    old(db).devices.entries@,
                    final(db).devices.entries@,
                    i,
                    network.prefix@,
                )
            },
{
    let ghost all = db.devices.entries@;
    let mut assigned: Vec<u8> = Vec::new();
    let mut i: usize = 0;
    while i < db.devices.entries.len()
        invariant
            i <= all.len(),
            old(db).wf(),
            all == old(db).devices.entries@,
            *db == (Database { devices: db.devices, ..*old(db) }),
            hosts_ok(all, i as int),
            assigned@.len() == i,
            forall|k: int|
                0 <= k < i ==> device_host(all[k].value) == Some(#[trigger] assigned@[k]),
            moved_so_far(all, db.devices.entries@, i as int, network.prefix@),
        decreases all.len() - i,
    {
        let ghost dev = all[i as int].value;
        proof {
            assert(db.devices.entries@[i as int] == all[i as int]);
            lemma_keys_prefix(all, db.devices.entries@);
        }
        let found = host_of(db.devices.entries[i].value.ip.as_str());
        proof {
            assert(device_host(dev) == found);
        }
        let host: u8 = match found {
            None => {
                proof {
                    assert(!hosts_ok(all, i + 1)) by {
                        assert(device_host(all[i as int].value) is None);
                    }
                }
                return Err(MigrationError::InvalidAddress);
            },
            Some(host) => host,
        };
        let mut k: usize = 0;
        let mut used = false;
        while k < assigned.len()
            invariant
                k <= assigned@.len(),
                used == exists|j: int| 0 <= j < k && #[trigger] assigned@[j] == host,
            decreases assigned@.len() - k,
        {
            if assigned[k] == host {
                used = true;
            }
            k = k + 1;
        }
        if host < FIRST_CLIENT_HOST || host > LAST_CLIENT_HOST || used {
            proof {
                assert(!hosts_ok(all, i + 1)) by {
                    if used {
                        let j = choose|j: int| 0 <= j < k && #[trigger] assigned@[j] == host;
                        assert(device_host(all[j].value) == device_host(all[i as int].value));
                    }
                    assert(device_host(all[i as int].value) == Some(host));
                }
            }
            return Err(MigrationError::HostConflict);
        }
        proof {
            assert forall|a: int, b: int|
                #![trigger all[a], all[b]]
                0 <= a < b < i + 1 implies device_host(all[a].value) != device_host(
                all[b].value,
            ) by {
                if b == i {
                    assert(assigned@[a] != host);
                    assert(device_host(all[a].value) == Some(assigned@[a]));
                }
            }
            assert(hosts_ok(all, i + 1));
        }
        assigned.push(host);
        let key = db.devices.entries[i].key.clone();
        let mut moved = db.devices.entries[i].value.copy();
        moved.ip = network.client_ip(host);
        db.devices.entries.set(i, TextEntry { key, value: moved });
        i = i + 1;
    }
    proof {
        lemma_keys_prefix(all, db.devices.entries@);
    }
    Ok(())
}

proof fn lemma_keys_prefix(all: Seq<TextEntry<ClientDevice>>, now: Seq<TextEntry<ClientDevice>>)
    requires
        keys_sorted(all),
        now.len() == all.len(),
        forall|k: int| 0 <= k < all.len() ==> (#[trigger] now[k]).key == all[k].key,
    ensures
        keys_sorted(now),
{
    assert forall|i: int, j: int|
        #![trigger now[i], now[j]]
        0 <= i < j < now.len() implies text_lt(now[i].key@, now[j].key@) by {
        assert(text_lt(all[i].key@, all[j].key@));
    }
}

// ---------------------------------------------------------------------------
// Settings
// ---------------------------------------------------------------------------

/// Settings that a deployment left behind for the next start.
#[derive(Debug)]
pub struct DeployOverrides {
    pub main_password: String,
    pub device_id: String,
    pub dns: String,
}

/// The first text that is not empty.
pub open spec fn first_text(a: Seq<char>, b: Seq<char>, c: Seq<char>) -> Seq<char> {
    if a.len() > 0 {
        a
    } else if b.len() > 0 {
        b
    } else {
        c
    }
}

fn pick_text(a: &str, b: &str, c: &str) -> (r: String)
    ensures
        r@ == first_text(a@, b@, c@),
{
    if !a.is_empty() {
        a.to_owned()
    } else if !b.is_empty() {
        b.to_owned()
    } else {
        c.to_owned()
    }
}

/// Whether an interval between restarts is one of those on offer.
pub open spec fn interval_offered(hours: u8) -> bool {
    hours == 0 || hours == 12 || hours == 24 || hours == 48 || hours == 72
}

/// The resolvers that are used: those of the command line, those of the deployment, the
/// saved ones, or the default.
pub open spec fn dns_choice(
    argument: Option<Seq<char>>,
    deployed: Seq<char>,
    saved: Seq<char>,
) -> Option<Seq<char>> {
    let a = match argument {
        Some(text) => trim(text),
        None => Seq::empty(),
    };
    let chosen = first_text(a, trim(deployed), trim(saved));
    if chosen.len() > 0 {
        Some(chosen)
    } else {
        None
    }
}

/// Decides about the resolvers.
pub fn resolve_dns(argument: Option<&str>, deployed: &str, saved: &str) -> (r: Result<
    String,
    DnsError,
>)
    ensures
        match dns_choice(
            match argument {
                Some(text) => Some(text@),
                None => None,
            },
            deployed@,
            saved@,
        ) {
            Some(text) => is_normal_dns(text, r),
            None => r is Ok && r->Ok_0@ == default_dns(),
        },
{
    let a = match argument {
        Some(text) => {
            let chars = chars_of(text);
            trimmed(chars.as_slice())
        },
        None => Vec::new(),
    };
    let ghost wanted = match argument {
        Some(text) => trim(text@),
        None => Seq::<char>::empty(),
    };
    proof {
        assert(a@ =~= wanted);
    }
    let d = chars_of(deployed);
    let d = trimmed(d.as_slice());
    let s = chars_of(saved);
    let s = trimmed(s.as_slice());
    let chosen = if a.len() > 0 {
        a
    } else if d.len() > 0 {
        d
    } else {
        s
    };
    proof {
        assert(chosen@ =~= first_text(wanted, trim(deployed@), trim(saved@)));
    }
    if chosen.len() == 0 {
        return Ok("1.1.1.1".to_owned());
    }
    let text = string_of(chosen.as_slice());
    normalize_dns(text.as_str())
}

/// Takes over the settings of a start: what is given on the command line goes before
/// what a deployment left behind, and that before what is saved. A main password is made
/// up where there is none. Sessions and the retired administrator are dropped.
pub fn apply_startup_settings(
    db: &mut Database,
    password: &str,
    device_id: &str,
    overrides: &DeployOverrides,
    generated: &str,
    dns: String,
)
    requires
        old(db).wf(),
    ensures
        final(db).wf(),
        final(db).main_password@ == first_text(
            password@,
            overrides.main_password@,
            first_text(old(db).main_password@, generated@, Seq::empty()),
        ),
        final(db).main_device_id@ == first_text(
            device_id@,
            overrides.device_id@,
            old(db).main_device_id@,
        ),
        final(db).dns == dns,
        final(db).admin_id@ == Seq::<char>::empty(),
        final(db).bot_token@ == Seq::<char>::empty(),
        final(db).web_sessions@ == Map::<Seq<char>, i64>::empty(),
        ({
            let hours = match old(db).auto_restart_interval_hours {
                Some(h) => h,
                None => DEFAULT_AUTO_RESTART_INTERVAL_HOURS,
            };
            final(db).auto_restart_interval_hours == if interval_offered(hours) {
                old(db).auto_restart_interval_hours
            } else {
                Some(DEFAULT_AUTO_RESTART_INTERVAL_HOURS)
            }
        }),
        *final(db) == (Database {
            main_password: final(db).main_password,
            main_device_id: final(db).main_device_id,
            dns,
            admin_id: final(db).admin_id,
            bot_token: final(db).bot_token,
            web_sessions: final(db).web_sessions,
            auto_restart_interval_hours: final(db).auto_restart_interval_hours,
            ..*old(db)
        }),
{
    db.admin_id = String::new();
    db.bot_token = String::new();
    db.web_sessions = TextMap::new();
    let saved = pick_text(db.main_password.as_str(), generated, "");
    proof {
        reveal_strlit("");
        assert(""@ =~= Seq::<char>::empty());
    }
    db.main_password = pick_text(password, overrides.main_password.as_str(), saved.as_str());
    db.main_device_id = pick_text(
        device_id,
        overrides.device_id.as_str(),
        db.main_device_id.as_str(),
    );
    db.dns = dns;
    let hours = db.auto_restart_interval_hours();
    if !(hours == 0 || hours == 12 || hours == 24 || hours == 48 || hours == 72) {
        db.set_auto_restart_interval_hours(DEFAULT_AUTO_RESTART_INTERVAL_HOURS);
    }
}

/// What is done about the certificate of the panel.
#[derive(Clone, Copy, Debug, PartialEq, Eq, Structural)]
pub enum CertificateStep {
    /// Both files are there.
    Load,
    /// Neither is there: a new pair is made.
    Generate,
    /// Only one is there: the start fails.
    Incomplete,
}

/// Decides about the certificate of the panel.
pub fn certificate_step(certificate_exists: bool, key_exists: bool) -> (r: CertificateStep)
    ensures
        r == certificate_for(certificate_exists, key_exists),
{
    if certificate_exists && key_exists {
        CertificateStep::Load
    } else if !certificate_exists && !key_exists {
        CertificateStep::Generate
    } else {
        CertificateStep::Incomplete
    }
}

/// The names for a host name and an outward address.
pub open spec fn names_for(
    hostname: Option<Seq<char>>,
    outward: Option<IpAddress>,
    outward_text: Seq<char>,
) -> Seq<Seq<char>> {
    let base = seq!["localhost"@, "127.0.0.1"@];
    let named = match hostname {
        Some(h) => if trim(h).len() > 0 {
            base.push(trim(h))
        } else {
            base
        },
        None => base,
    };
    match outward {
        Some(ip) => if ip.is_loopback_spec() {
            named
        } else {
            named.push(outward_text)
        },
        None => named,
    }
}

/// A certificate always names this machine, and besides only its host name, without white
/// space around it, and its outward address, unless that leads back to itself.
pub proof fn law_certificates_name_the_machine(
    hostname: Option<Seq<char>>,
    outward: Option<IpAddress>,
    outward_text: Seq<char>,
)
    ensures
        ({
            let names = names_for(hostname, outward, outward_text);
            &&& names.len() >= 2
            &&& names[0] == "localhost"@
            &&& names[1] == "127.0.0.1"@
            &&& hostname matches Some(h) ==> (trim(h).len() > 0 ==> names.len() > 2 && names[2]
                == trim(h))
            &&& outward matches Some(ip) ==> (!ip.is_loopback_spec() ==> names.last()
                == outward_text && names.len() >= 3)
            &&& (hostname is None || trim(hostname->0).len() == 0) && (outward is None
                || outward->0.is_loopback_spec()) ==> names.len() == 2
            &&& names.len() <= 4
        }),
{
}

/// The names that a new certificate is made for: this machine, its host name where it
/// has one, and its outward address unless that is a loopback address.
pub fn certificate_names(hostname: Option<&str>, outward: Option<IpAddress>, outward_text: &str)
    -> (r: Vec<String>)
    ensures
        texts(r@) == names_for(
            match hostname {
                Some(h) => Some(h@),
                None => None,
            },
            outward,
            outward_text@,
        ),
{
    let mut r: Vec<String> = Vec::new();
    r.push("localhost".to_owned());
    r.push("127.0.0.1".to_owned());
    proof {
        assert(texts(r@) =~= seq!["localhost"@, "127.0.0.1"@]);
    }
    if let Some(h) = hostname {
        let chars = chars_of(h);
        let name = trimmed(chars.as_slice());
        if name.len() > 0 {
            let ghost before = r@;
            let text = string_of(name.as_slice());
            r.push(text);
            proof {
                assert(texts(r@) =~= texts(before).push(name@));
            }
        }
    }
    if let Some(ip) = outward {
        if !ip.is_loopback() {
            let ghost before = r@;
            r.push(outward_text.to_owned());
            proof {
                assert(texts(r@) =~= texts(before).push(outward_text@));
            }
        }
    }
    r
}

// ---------------------------------------------------------------------------
// Restarts and sweeps
// ---------------------------------------------------------------------------

/// Seconds to wait after a restart could not be scheduled.
pub const RESTART_RETRY_SECONDS: u64 = 300;

/// How long an unused device epoch is kept, in milliseconds.
pub const DEVICE_EPOCH_IDLE_TTL_MS: u64 = 3600000;

/// What is left of an interval between restarts.
pub open spec fn wait_left(hours: u8, started: i64, now: i64) -> Option<u64> {
    if hours == 0 {
        None::<u64>
    } else if now < started {
        Some(0u64)
    } else if now - started >= hours as int * 3600 {
        Some(0u64)
    } else {
        Some((hours as int * 3600 - (now - started)) as u64)
    }
}

/// A restart comes when its interval is over: the time that is left, added to the time that
/// went by, makes the interval. No restart is planned for no interval, and none is late.
pub proof fn law_restarts_come_on_time(hours: u8, started: i64, now: i64)
    ensures
        wait_left(hours, started, now) is None <==> hours == 0,
        hours > 0 && started <= now < started + hours as int * 3600 ==> (wait_left(
            hours,
            started,
            now,
        ) matches Some(left) && now + left == started + hours as int * 3600),
        hours > 0 && (now < started || now >= started + hours as int * 3600) ==> wait_left(
            hours,
            started,
            now,
        ) == Some(0u64),
{
}

/// Seconds until the next automatic restart: what is left of the interval. A clock that
/// was set back before the start counts as an interval that is over. Nothing where
/// restarts are off.
pub fn restart_wait(hours: u8, started: i64, now: i64) -> (r: Option<u64>)
    ensures
        r == wait_left(hours, started, now),
{
    if hours == 0 {
        return None;
    }
    if now < started {
        return Some(0);
    }
    let interval: u64 = hours as u64 * 3600;
    let uptime: u64 = match now.checked_sub(started) {
        Some(d) => d as u64,
        None => {
            return Some(0);
        },
    };
    if uptime >= interval {
        Some(0)
    } else {
        Some(interval - uptime)
    }
}

/// What follows a wait for an automatic restart.
#[derive(Clone, Copy, Debug, PartialEq, Eq, Structural)]
pub enum RestartStep {
    /// Another restart is under way: nothing more to do.
    Done,
    /// A restart is requested now.
    Request,
}

/// Decides when the wait is over; only one restart is ever under way.
pub fn restart_due(pending: &mut bool) -> (r: RestartStep)
    ensures
        *final(pending),
        r == (if *old(pending) {
            RestartStep::Done
        } else {
            RestartStep::Request
        }),
{
    let was = *pending;
    *pending = true;
    if was {
        RestartStep::Done
    } else {
        RestartStep::Request
    }
}

/// Notes whether the requested restart was scheduled; tells whether it is tried again
/// later.
pub fn restart_requested(pending: &mut bool, scheduled: bool) -> (again: bool)
    ensures
        again == !scheduled,
        *final(pending) == (*old(pending) && scheduled),
{
    if !scheduled {
        *pending = false;
    }
    !scheduled
}

/// Whether the epoch of a device is dropped: long unused, and no session has the device.
pub fn device_epoch_expired(now_ms: u64, last_used_ms: u64, in_use: bool) -> (r: bool)
    ensures
        r == (now_ms >= last_used_ms + DEVICE_EPOCH_IDLE_TTL_MS && !in_use),
{
    now_ms.saturating_sub(last_used_ms) >= DEVICE_EPOCH_IDLE_TTL_MS && !in_use
}

/// Whether the epoch of a device stays: it was used not long ago, or a session has the
/// device.
pub open spec fn epoch_stays(
    device: Seq<char>,
    last_used_ms: u64,
    in_use: Seq<Seq<char>>,
    now_ms: u64,
) -> bool {
    now_ms < last_used_ms + DEVICE_EPOCH_IDLE_TTL_MS || in_use.contains(device)
}

/// The device epochs that stay.
pub open spec fn epochs_kept(
    epochs: Map<Seq<char>, u64>,
    in_use: Seq<Seq<char>>,
    now_ms: u64,
) -> Map<Seq<char>, u64> {
    epochs.restrict(
        Set::new(|device: Seq<char>| epoch_stays(device, epochs[device], in_use, now_ms)),
    )
}

fn is_listed(devices: &Vec<String>, device: &str) -> (r: bool)
    ensures
        r == texts(devices@).contains(device@),
{
    let mut i: usize = 0;
    while i < devices.len()
        invariant
            i <= devices@.len(),
            forall|k: int| 0 <= k < i ==> (#[trigger] devices@[k])@ != device@,
        decreases devices@.len() - i,
    {
        if same_text(devices[i].as_str(), device) {
            proof {
                assert(texts(devices@)[i as int] == device@);
            }
            return true;
        }
        i = i + 1;
    }
    proof {
        if texts(devices@).contains(device@) {
            let k = choose|k: int|
                0 <= k < texts(devices@).len() && texts(devices@)[k] == device@;
            assert(devices@[k]@ == device@);
        }
    }
    false
}

/// Drops the device epochs that were long unused and whose devices no session has.
pub fn sweep_device_epochs(epochs: &mut TextMap<u64>, in_use: &Vec<String>, now_ms: u64)
    requires
        old(epochs).wf(),
    ensures
        final(epochs).wf(),
        final(epochs)@ == epochs_kept(old(epochs)@, texts(in_use@), now_ms),
{
    let mut kept: TextMap<u64> = TextMap::new();
    let ghost used = texts(in_use@);
    let ghost all = epochs.entries@;
    let mut i: usize = 0;
    while i < epochs.entries.len()
        invariant
            i <= epochs.entries@.len(),
            all == epochs.entries@,
            keys_sorted(all),
            used == texts(in_use@),
            kept.wf(),
            forall|k: Seq<char>| #[trigger]
                kept@.contains_key(k) ==> exists|j: int|
                    0 <= j < i && (#[trigger] all[j]).key@ == k,
            forall|j: int|
                0 <= j < i ==> (kept@.contains_key((#[trigger] all[j]).key@) <==> epoch_stays(
                    all[j].key@,
                    all[j].value,
                    used,
                    now_ms,
                )),
            forall|j: int|
                0 <= j < i && kept@.contains_key((#[trigger] all[j]).key@) ==> kept@[all[j].key@]
                    == all[j].value,
        decreases epochs.entries@.len() - i,
    {
        let last_used: u64 = epochs.entries[i].value;
        let listed = is_listed(in_use, epochs.entries[i].key.as_str());
        let ghost before = kept@;
        let ghost key = all[i as int].key@;
        proof {
            assert forall|j: int| 0 <= j < i implies (#[trigger] all[j]).key@ != key by {
                assert(text_lt(all[j].key@, all[i as int].key@));
                lemma_text_lt_total(key, key);
            }
            assert(!before.contains_key(key));
        }
        if !device_epoch_expired(now_ms, last_used, listed) {
            kept.insert(epochs.entries[i].key.clone(), last_used);
            proof {
                assert(kept@ == before.insert(key, last_used));
                assert forall|k: Seq<char>| #[trigger] kept@.contains_key(k) implies exists|j: int|
                    0 <= j < i + 1 && (#[trigger] all[j]).key@ == k by {
                    if k == key {
                        assert(all[i as int].key@ == k);
                    } else {
                        assert(before.contains_key(k));
                        let j = choose|j: int| 0 <= j < i && (#[trigger] all[j]).key@ == k;
                        assert(all[j].key@ == k);
                    }
                }
            }
        }
        i = i + 1;
    }
    proof {
        let target = epochs_kept(epochs@, used, now_ms);
        assert forall|k: Seq<char>| kept@.contains_key(k) <==> target.contains_key(k) by {
            lemma_map_of_domain(all, k);
            if kept@.contains_key(k) || target.contains_key(k) {
                let j = choose|j: int| 0 <= j < all.len() && (#[trigger] all[j]).key@ == k;
                lemma_map_of_index(all, j);
            }
        }
        assert forall|k: Seq<char>| kept@.contains_key(k) implies kept@[k] == target[k] by {
            lemma_map_of_domain(all, k);
            let j = choose|j: int| 0 <= j < all.len() && (#[trigger] all[j]).key@ == k;
            lemma_map_of_index(all, j);
        }
        assert(kept@ =~= target);
    }
    *epochs = kept;
}

/// Resolvers are one or two addresses: they come out in order, separated by a comma; more
/// or fewer are refused, and so is what is no address, by name.
pub proof fn law_resolvers_are_addresses(value: Seq<char>, r: Result<String, DnsError>)
    requires
        is_normal_dns(value, r),
    ensures
        ({
            let items = list_items(value, ',');
            &&& r is Ok ==> 1 <= items.len() <= 2 && forall|i: int|
                0 <= i < items.len() ==> is_ipv4_text(#[trigger] items[i])
            &&& r is Ok && items.len() == 1 ==> r->Ok_0@ == items[0]
            &&& r is Ok && items.len() == 2 ==> r->Ok_0@ == items[0] + seq![','] + items[1]
            &&& items.len() == 0 || items.len() > 2 ==> (r matches Err(DnsError::Count))
            &&& r matches Err(DnsError::InvalidAddress(a)) ==> items.contains(a@) && !is_ipv4_text(
                a@,
            )
            &&& items.len() == 1 && is_ipv4_text(items[0]) ==> r is Ok
            &&& items.len() == 2 && is_ipv4_text(items[0]) && is_ipv4_text(items[1]) ==> r is Ok
        }),
{
    let items = list_items(value, ',');
    reveal_with_fuel(join, 3);
    if items.len() == 2 {
        assert(items.drop_last() =~= seq![items[0]]);
    }
    if r is Err && 1 <= items.len() <= 2 {
        assert(items.contains(items[0]));
        if items.len() == 2 {
            assert(items.contains(items[1]));
        }
    }
}

/// Each word of the command line means one command; whatever else follows the program's
/// name starts the server, and nothing at all asks for help.
pub proof fn law_commands_have_names(args: Seq<Seq<char>>)
    ensures
        args.len() == 1 ==> command_of(args) is Help,
        args.len() == 2 && (args[1] == "help"@ || args[1] == "--help"@ || args[1] == "-h"@)
            ==> command_of(args) is Help,
        args.len() >= 2 && args[1] == "start"@ ==> command_of(args) is Start,
        args.len() >= 2 && args[1] == "stop"@ ==> command_of(args) is Stop,
        args.len() >= 2 && args[1] == "restart"@ ==> command_of(args) is Restart,
        args.len() >= 2 && args[1] == "syscalls"@ ==> command_of(args) is Syscalls,
        args.len() >= 3 && args[1] == "perf"@ && args[2] == "all"@ ==> command_of(args) is Perf,
        args.len() >= 2 && args[1] == "perf"@ && !(args.len() >= 3 && args[2] == "all"@)
            ==> command_of(args) is PerfUsage,
        args.len() >= 3 && args[1] == "metric"@ && args[2] == "all"@ ==> command_of(args) is Metric,
        args.len() >= 2 && args[1] == "metric"@ && !(args.len() >= 3 && args[2] == "all"@)
            ==> command_of(args) is MetricUsage,
        args.len() >= 2 && args[1] == "dpi"@ ==> command_of(args) is Dpi,
{
    reveal_strlit("help");
    reveal_strlit("--help");
    reveal_strlit("-h");
    reveal_strlit("start");
    reveal_strlit("stop");
    reveal_strlit("restart");
    reveal_strlit("dpi");
    reveal_strlit("syscalls");
    reveal_strlit("perf");
    reveal_strlit("metric");
    assert("help"@[0] == 'h' && "--help"@[0] == '-' && "-h"@[0] == '-' && "start"@[0] == 's'
        && "start"@[1] == 't' && "start"@[2] == 'a' && "stop"@[0] == 's' && "stop"@[1] == 't'
        && "stop"@[2] == 'o' && "restart"@[0] == 'r' && "dpi"@[0] == 'd' && "syscalls"@[0] == 's'
        && "syscalls"@[1] == 'y' && "perf"@[0] == 'p' && "metric"@[0] == 'm');
}

/// A number of samples is taken from the command line as it was written.
pub proof fn law_samples_are_counted(program: Seq<char>, n: nat)
    requires
        n <= usize::MAX,
    ensures
        command_of(seq![program, "dpi"@, "s"@, dec(n)]) == Command::Dpi(n as usize),
        command_of(seq![program, "dpi"@]) == Command::Dpi(0),
{
    law_numbers_are_read_back(n, usize::MAX as nat);
    law_commands_have_names(seq![program, "dpi"@, "s"@, dec(n)]);
    law_commands_have_names(seq![program, "dpi"@]);
}

/// The host number of a device is the last octet of its address.
pub proof fn law_device_host_is_the_last_octet(d: ClientDevice, ip: Ipv4)
    requires
        d.ip@ == ipv4_text(ip),
    ensures
        device_host(d) == Some(ip.d),
{
    let found = choose|found: Ipv4| #[trigger] ipv4_text(found) == d.ip@;
    assert(ipv4_text(found) == d.ip@);
    law_ipv4_text_injective(found, ip);
}

/// A device that moves to another network keeps its host number and all else.
pub proof fn law_devices_keep_their_hosts(
    old_d: ClientDevice,
    new_d: ClientDevice,
    ip: Ipv4,
    prefix: Seq<u8>,
)
    requires
        prefix.len() == 3,
        old_d.ip@ == ipv4_text(ip),
        device_moved(old_d, new_d, prefix),
    ensures
        new_d.ip@ == ipv4_text(Ipv4 { a: prefix[0], b: prefix[1], c: prefix[2], d: ip.d }),
        new_d.device_id == old_d.device_id && new_d.priv_key == old_d.priv_key && new_d.pub_key
            == old_d.pub_key && new_d.bound_password == old_d.bound_password && new_d.up_bytes
            == old_d.up_bytes && new_d.down_bytes == old_d.down_bytes,
{
    law_device_host_is_the_last_octet(old_d, ip);
}

/// Devices can move where all have hosts between 2 and 250 and no two the same.
pub proof fn law_hosts_must_differ(
    devices: Seq<TextEntry<ClientDevice>>,
    i: int,
    j: int,
    a: Ipv4,
    b: Ipv4,
)
    requires
        0 <= i < j < devices.len(),
        devices[i].value.ip@ == ipv4_text(a),
        devices[j].value.ip@ == ipv4_text(b),
    ensures
        hosts_ok(devices, devices.len() as int) ==> a.d != b.d && 2 <= a.d <= 250,
{
    law_device_host_is_the_last_octet(devices[i].value, a);
    law_device_host_is_the_last_octet(devices[j].value, b);
}

/// Of three texts the first that is not empty counts.
pub proof fn law_first_text_counts(a: Seq<char>, b: Seq<char>, c: Seq<char>)
    ensures
        a.len() > 0 ==> first_text(a, b, c) == a,
        a.len() == 0 && b.len() > 0 ==> first_text(a, b, c) == b,
        a.len() == 0 && b.len() == 0 ==> first_text(a, b, c) == c,
{
}

/// Resolvers from the command line come before those of the deployment, and those before
/// the saved ones; white space around them does not count.
pub proof fn law_resolvers_have_an_order(
    argument: Seq<char>,
    deployed: Seq<char>,
    saved: Seq<char>,
)
    ensures
        trim(argument).len() > 0 ==> dns_choice(Some(argument), deployed, saved) == Some(
            trim(argument),
        ),
        trim(deployed).len() > 0 ==> dns_choice(None, deployed, saved) == Some(trim(deployed)),
        trim(argument).len() == 0 ==> dns_choice(Some(argument), deployed, saved) == dns_choice(
            None,
            deployed,
            saved,
        ),
        trim(deployed).len() == 0 && trim(saved).len() > 0 ==> dns_choice(None, deployed, saved)
            == Some(trim(saved)),
        trim(deployed).len() == 0 && trim(saved).len() == 0 ==> dns_choice(None, deployed, saved)
            is None,
        default_dns() == "1.1.1.1"@,
{
}

/// Restarts are off or come every 12, 24, 48 or 72 hours.
pub proof fn law_offered_intervals(hours: u8)
    ensures
        interval_offered(hours) <==> hours == 0 || hours % 24 == 0 && hours < 73 || hours == 12,
{
}

/// An epoch is kept for an hour after its last use, and for as long as its device is in
/// use; sweeping changes no epoch and adds none.
pub proof fn law_epochs_outlive_their_use(
    epochs: Map<Seq<char>, u64>,
    in_use: Seq<Seq<char>>,
    now_ms: u64,
    device: Seq<char>,
)
    ensures
        epochs_kept(epochs, in_use, now_ms).contains_key(device) ==> epochs.contains_key(device)
            && epochs_kept(epochs, in_use, now_ms)[device] == epochs[device],
        epochs.contains_key(device) && in_use.contains(device) ==> epochs_kept(
            epochs,
            in_use,
            now_ms,
        ).contains_key(device),
        epochs.contains_key(device) && now_ms < epochs[device] + 3600000 ==> epochs_kept(
            epochs,
            in_use,
            now_ms,
        ).contains_key(device),
        epochs.contains_key(device) && !in_use.contains(device) && now_ms >= epochs[device]
            + 3600000 ==> !epochs_kept(epochs, in_use, now_ms).contains_key(device),
{
}

/// What is done about the certificate.
pub open spec fn certificate_for(certificate_exists: bool, key_exists: bool) -> CertificateStep {
    if certificate_exists && key_exists {
        CertificateStep::Load
    } else if !certificate_exists && !key_exists {
        CertificateStep::Generate
    } else {
        CertificateStep::Incomplete
    }
}

/// A certificate is loaded with its key and made where there is neither; one without the
/// other is never overwritten.
pub proof fn law_certificates_are_not_overwritten(certificate: bool, key: bool)
    ensures
        certificate_for(certificate, key) is Load <==> certificate && key,
        certificate_for(certificate, key) is Generate <==> !certificate && !key,
        certificate != key ==> certificate_for(certificate, key) is Incomplete,
{
}

/// After a successful migration every device has moved, under its own name and with its own
/// host number.
pub proof fn law_every_device_moves(
    before: Seq<TextEntry<ClientDevice>>,
    after: Seq<TextEntry<ClientDevice>>,
    prefix: Seq<u8>,
    i: int,
    ip: Ipv4,
)
    requires
        prefix.len() == 3,
        moved_so_far(before, after, before.len() as int, prefix),
        0 <= i < before.len(),
        before[i].value.ip@ == ipv4_text(ip),
    ensures
        after.len() == before.len(),
        after[i].key == before[i].key,
        after[i].value.ip@ == ipv4_text(
            Ipv4 { a: prefix[0], b: prefix[1], c: prefix[2], d: ip.d },
        ),
        after[i].value.priv_key == before[i].value.priv_key,
{
    assert(after[i].key == before[i].key);
    law_devices_keep_their_hosts(before[i].value, after[i].value, ip, prefix);
}

} // verus!
