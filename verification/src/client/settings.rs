//! How the client is started: worker counts, command line, credentials and controls.
use vstd::prelude::*;
use crate::text::{
    chars_of, contains_text, find_text, items_of, join, lemma_split_join, list_items, occurs_at,
    push_chars, same_text, split, split_on, starts_with, string_of, strip_text, sub_chars, text_is,
    texts, trim, trimmed, views,
};
use base64::Engine;

verus! {

/// Workers of one group.
pub const WORKERS_PER_GROUP: usize = 9;

/// Groups that share one credential.
pub const GROUPS_PER_CREDENTIAL: usize = 2;

/// Groups that one call hash can serve.
pub const GROUPS_PER_VK_HASH: usize = 3;

/// Most call hashes.
pub const MAX_VK_HASHES: usize = 6;

/// Most workers.
pub const MAX_WORKERS: usize = 126;

/// Streams that one runtime thread serves.
pub const STREAMS_PER_RUNTIME_WORKER: usize = 12;

/// Most runtime threads.
pub const MAX_RUNTIME_WORKER_THREADS: usize = 4;

/// Longest credentials packet, in bytes.
pub const MAX_CREDENTIALS_BYTES: usize = 131072;

/// Longest bootstrap packet, in bytes.
pub const MAX_BOOTSTRAP_BYTES: usize = 32768;

// ---------------------------------------------------------------------------
// Worker counts
// ---------------------------------------------------------------------------

/// A number kept within bounds.
pub open spec fn bounded(n: int, low: int, high: int) -> int {
    if n < low {
        low
    } else if n > high {
        high
    } else {
        n
    }
}

/// The number of workers for a request: whole groups, at least one, within the limit.
pub open spec fn worker_count(requested: nat) -> nat {
    (bounded(requested as int, WORKERS_PER_GROUP as int, MAX_WORKERS as int)
        / WORKERS_PER_GROUP as int * WORKERS_PER_GROUP as int) as nat
}

/// The number of workers for a request.
pub fn normalize_worker_count(requested: usize) -> (r: usize)
    ensures
        r == worker_count(requested as nat),
        WORKERS_PER_GROUP <= r <= MAX_WORKERS,
        r as int % WORKERS_PER_GROUP as int == 0,
{
    let n: usize = if requested < WORKERS_PER_GROUP {
        WORKERS_PER_GROUP
    } else if requested > MAX_WORKERS {
        MAX_WORKERS
    } else {
        requested
    };
    n / WORKERS_PER_GROUP * WORKERS_PER_GROUP
}

/// The number of workers granted to a request with a number of call hashes.
pub open spec fn granted_workers(
    requested: nat,
    hash_count: nat,
    allow_hash_redistribution: bool,
) -> int {
    let limit = bounded(hash_count as int, 1, MAX_VK_HASHES as int) * GROUPS_PER_VK_HASH as int
        * WORKERS_PER_GROUP as int;
    let n = worker_count(requested) as int;
    if allow_hash_redistribution || n <= limit {
        n
    } else {
        limit
    }
}

/// Each hash carries at most 27 workers and at most six hashes count; within that a request
/// is granted in whole groups of nine, and never more than it asks for beyond one group.
pub proof fn law_hashes_limit_the_workers(requested: nat, hash_count: nat, spread: bool)
    ensures
        9 <= granted_workers(requested, hash_count, spread) <= 126,
        granted_workers(requested, hash_count, spread) % 9 == 0,
        !spread && 1 <= hash_count ==> granted_workers(requested, hash_count, spread) <= 27
            * hash_count,
        !spread ==> granted_workers(requested, hash_count, spread) <= 162,
        hash_count == 0 ==> granted_workers(requested, 0, spread) == granted_workers(
            requested,
            1,
            spread,
        ),
        spread || worker_count(requested) <= 27 * hash_count ==> granted_workers(
            requested,
            hash_count,
            spread,
        ) == worker_count(requested),
        !spread && 1 <= hash_count <= 4 && 27 * hash_count <= requested ==> granted_workers(
            requested,
            hash_count,
            spread,
        ) == 27 * hash_count,
        worker_count(requested) % 9 == 0,
        requested >= 126 ==> worker_count(requested) == 126,
        requested <= 9 ==> worker_count(requested) == 9,
        9 <= requested <= 126 ==> requested - 9 < worker_count(requested) <= requested,
{
}

/// The number of workers for a request with a number of call hashes. Each hash serves
/// three groups, unless groups may be spread over the hashes at will.
pub fn normalize_worker_count_for_hashes(
    requested: usize,
    hash_count: usize,
    allow_hash_redistribution: bool,
) -> (r: usize)
    ensures
        r == granted_workers(requested as nat, hash_count as nat, allow_hash_redistribution),
        WORKERS_PER_GROUP <= r <= MAX_WORKERS,
        r as int % WORKERS_PER_GROUP as int == 0,
{
    let workers = normalize_worker_count(requested);
    if allow_hash_redistribution {
        return workers;
    }
    let hashes: usize = if hash_count < 1 {
        1
    } else if hash_count > MAX_VK_HASHES {
        MAX_VK_HASHES
    } else {
        hash_count
    };
    let maximum: usize = hashes * GROUPS_PER_VK_HASH * WORKERS_PER_GROUP;
    if workers < maximum {
        workers
    } else {
        maximum
    }
}

/// A request never gives fewer workers than a smaller one, and a request that fits is
/// granted up to less than one group.
pub proof fn law_worker_count_follows_request(a: nat, b: nat)
    requires
        a <= b,
    ensures
        worker_count(a) <= worker_count(b),
        WORKERS_PER_GROUP <= a <= MAX_WORKERS ==> a - WORKERS_PER_GROUP < worker_count(a) <= a,
        worker_count(worker_count(a)) == worker_count(a),
{
}

/// The threads that serve a request.
pub open spec fn runtime_threads(requested: nat) -> int {
    bounded(
        (worker_count(requested) as int + STREAMS_PER_RUNTIME_WORKER as int - 1)
            / STREAMS_PER_RUNTIME_WORKER as int,
        1,
        MAX_RUNTIME_WORKER_THREADS as int,
    )
}

/// There are as many threads as twelve streams each need, up to four, and no more.
pub proof fn law_threads_cover_the_streams(requested: nat)
    ensures
        1 <= runtime_threads(requested) <= 4,
        runtime_threads(requested) * 12 >= worker_count(requested) || runtime_threads(requested)
            == 4,
        (runtime_threads(requested) - 1) * 12 < worker_count(requested),
{
}

/// The credentials that must be ready for a number of groups.
pub open spec fn ready_bots(groups: nat) -> int {
    bounded((groups as int + 1) / 2, 1, 2)
}

/// One credential is enough for up to two groups; from the third group on it takes two.
pub proof fn law_two_credentials_from_the_third_group(groups: nat)
    ensures
        groups <= 2 ==> ready_bots(groups) == 1,
        groups > 2 ==> ready_bots(groups) == 2,
{
}

/// Threads of the runtime: one for every twelve streams, at least one, at most four.
pub fn runtime_worker_threads(requested_workers: usize) -> (r: usize)
    ensures
        r == runtime_threads(requested_workers as nat),
{
    let workers = normalize_worker_count(requested_workers);
    let threads: usize = (workers + STREAMS_PER_RUNTIME_WORKER - 1) / STREAMS_PER_RUNTIME_WORKER;
    if threads < 1 {
        1
    } else if threads > MAX_RUNTIME_WORKER_THREADS {
        MAX_RUNTIME_WORKER_THREADS
    } else {
        threads
    }
}

/// Credentials that must be ready before the creator of a call may leave it: one for
/// every two groups, at least one, at most two.
pub fn required_js_ready_bots(groups: usize) -> (r: usize)
    ensures
        r == ready_bots(groups as nat),
{
    let bots: usize = groups / GROUPS_PER_CREDENTIAL + groups % GROUPS_PER_CREDENTIAL;
    if bots < 1 {
        1
    } else if bots > 2 {
        2
    } else {
        bots
    }
}

/// The creator of a call stays in it while the client runs, in every mode.
pub fn should_leave_js_creator(_js_hash_mode: bool, _js_auth_mode: bool) -> (r: bool)
    ensures
        !r,
{
    false
}

/// The credentials that reported ready.
pub struct ReadyCredentials {
    seen: Vec<usize>,
    expected: usize,
}

impl ReadyCredentials {
    /// Which credentials reported.
    pub closed spec fn view(&self) -> Set<usize> {
        self.seen@.to_set()
    }

    /// How many are waited for.
    pub closed spec fn wanted(&self) -> nat {
        self.expected as nat
    }

    /// No credential is counted twice.
    pub closed spec fn wf(&self) -> bool {
        self.seen@.no_duplicates()
    }

    /// Waits for `expected` credentials.
    pub fn new(expected: usize) -> (r: Self)
        ensures
            r.wf(),
            r@ == Set::<usize>::empty(),
            r.wanted() == expected,
    {
        let r = ReadyCredentials { seen: Vec::new(), expected };
        proof {
            assert(r.seen@.to_set() =~= Set::<usize>::empty());
        }
        r
    }

    /// Whether enough distinct credentials reported.
    pub fn complete(&self) -> (r: bool)
        requires
            self.wf(),
        ensures
            r == (self@.len() >= self.wanted()),
    {
        proof {
            self.seen@.unique_seq_to_set();
        }
        self.seen.len() >= self.expected
    }

    /// Notes a report; one credential counts once however often it reports.
    pub fn report(&mut self, credential: usize)
        requires
            old(self).wf(),
        ensures
            final(self).wf(),
            final(self)@ == old(self)@.insert(credential),
            final(self).wanted() == old(self).wanted(),
    {
        let mut i: usize = 0;
        while i < self.seen.len()
            invariant
                i <= self.seen@.len(),
                *self == *old(self),
                old(self).wf(),
                forall|j: int| 0 <= j < i ==> #[trigger] self.seen@[j] != credential,
            decreases self.seen@.len() - i,
        {
            if self.seen[i] == credential {
                proof {
                    assert(self.seen@.contains(self.seen@[i as int]));
                    assert(self.seen@.to_set().insert(credential) =~= self.seen@.to_set());
                }
                return ;
            }
            i = i + 1;
        }
        let ghost before = self.seen@;
        self.seen.push(credential);
        proof {
            let after = self.seen@;
            assert forall|x: usize| after.contains(x) <==> (before.contains(x) || x
                == credential) by {
                if before.contains(x) {
                    let k = choose|k: int| 0 <= k < before.len() && before[k] == x;
                    assert(after[k] == x);
                }
                if x == credential {
                    assert(after[before.len() as int] == x);
                }
            }
            assert(after.to_set() =~= before.to_set().insert(credential));
        }
    }
}

// ---------------------------------------------------------------------------
// Command line
// ---------------------------------------------------------------------------

/// The names of the flags that may be written with a single dash.
pub open spec fn flag_names() -> Seq<Seq<char>> {
    seq![
        "turn"@,
        "port"@,
        "listen"@,
        "vk"@,
        "vk-hash-mode"@,
        "peer"@,
        "device-id"@,
        "password"@,
        "vk-auth-mode"@,
        "captcha-mode"@,
        "fingerprint"@,
        "client-ids"@,
        "obfs"@,
        "turn-transport"@,
        "gen"@,
        "salt"@,
        "tun-uds"@,
        "tun-device"@,
        "tun-config-hook"@,
        "socks5"@,
        "allow-hash-redistribution"@,
        "validate-vk-hashes"@,
        "credentials-stdin"@,
        "credentials-file"@,
    ]
}

fn flag_list() -> (r: Vec<&'static str>)
    ensures
        r@.len() == flag_names().len(),
        forall|i: int| 0 <= i < r@.len() ==> (#[trigger] r@[i])@ == flag_names()[i],
{
    let r: Vec<&'static str> = vec![
        "turn",
        "port",
        "listen",
        "vk",
        "vk-hash-mode",
        "peer",
        "device-id",
        "password",
        "vk-auth-mode",
        "captcha-mode",
        "fingerprint",
        "client-ids",
        "obfs",
        "turn-transport",
        "gen",
        "salt",
        "tun-uds",
        "tun-device",
        "tun-config-hook",
        "socks5",
        "allow-hash-redistribution",
        "validate-vk-hashes",
        "credentials-stdin",
        "credentials-file",
    ];
    r
}

/// Whether a text is the name of a flag.
fn is_flag_name(name: &[char]) -> (r: bool)
    ensures
        r == flag_names().contains(name@),
{
    let names = flag_list();
    let mut i: usize = 0;
    while i < names.len()
        invariant
            i <= names@.len(),
            names@.len() == flag_names().len(),
            forall|k: int| 0 <= k < names@.len() ==> (#[trigger] names@[k])@ == flag_names()[k],
            forall|k: int| 0 <= k < i ==> #[trigger] flag_names()[k] != name@,
        decreases names@.len() - i,
    {
        if text_is(name, names[i]) {
            proof {
                assert(flag_names()[i as int] == name@);
            }
            return true;
        }
        i = i + 1;
    }
    false
}

/// Whether an argument is a flag with a single dash: its name ends at the first equals
/// sign.
pub open spec fn single_dash_flag(argument: Seq<char>) -> bool {
    argument.len() > 0 && argument[0] == '-' && !(argument.len() > 1 && argument[1] == '-')
        && flag_names().contains(split(argument.skip(1), '=')[0])
}

/// Gives flags with a single dash their second one; everything else, values that begin
/// with a dash among it, stays as it is.
pub fn normalize_cli_argument(argument: String) -> (r: String)
    ensures
        r@ == (if single_dash_flag(argument@) {
            seq!['-'] + argument@
        } else {
            argument@
        }),
{
    let chars = chars_of(argument.as_str());
    if chars.len() == 0 || chars[0] != '-' {
        return argument;
    }
    if chars.len() > 1 && chars[1] == '-' {
        return argument;
    }
    let value = sub_chars(chars.as_slice(), 1, chars.len());
    proof {
        assert(value@ =~= chars@.skip(1));
    }
    let parts = split_on(value.as_slice(), '=');
    proof {
        assert(views(parts@)[0] == parts@[0]@);
    }
    if !is_flag_name(parts[0].as_slice()) {
        return argument;
    }
    let mut out: Vec<char> = Vec::new();
    out.push('-');
    push_chars(&mut out, chars.as_slice());
    proof {
        assert(out@ =~= seq!['-'] + chars@);
    }
    string_of(out.as_slice())
}

/// What the client was started with, as far as it decides about the start.
#[derive(Debug)]
pub struct ClientArguments {
    pub vk: String,
    pub vk_hash_mode: String,
    pub vk_auth_mode: String,
    pub peer: String,
    pub password: String,
    pub tun_uds: String,
    pub tun_device: String,
    pub tun_config_hook: String,
    pub socks5: String,
}

/// Why the client does not start.
#[derive(Clone, Copy, Debug, PartialEq, Eq, Structural)]
pub enum ArgumentError {
    /// Automatic authorization needs automatic hashes.
    JsAuthNeedsJsHashes,
    /// A peer and hashes are needed.
    PeerOrHashesMissing,
    /// A password is needed.
    PasswordMissing,
    /// Only one tunnel device can be used.
    TunModesExclusive,
    /// The local proxy cannot be used with a tunnel device.
    SocksWithTun,
    /// The configuration hook needs a tunnel device.
    HookWithoutDevice,
    /// Credentials come either from the standard input or from a file.
    CredentialSourcesExclusive,
    /// There is no hash.
    NoHashes,
}

impl ArgumentError {
    /// The error in words.
    pub fn message(&self) -> (r: &'static str)
        ensures
            r@ == argument_error_words(*self),
    {
        match self {
            ArgumentError::JsAuthNeedsJsHashes => "[КЛИЕНТ] Режим авторизации Auto JS требует режим хешей Auto JS",
            ArgumentError::PeerOrHashesMissing => "[КЛИЕНТ] Нужны -peer и хеши VK",
            ArgumentError::PasswordMissing => "[КЛИЕНТ] Нужен -password: WRAP ключ выводится из пароля подключения",
            ArgumentError::TunModesExclusive => "--tun-uds and --tun-device are mutually exclusive",
            ArgumentError::SocksWithTun => "--socks5 and TUN mode are mutually exclusive",
            ArgumentError::HookWithoutDevice => "--tun-config-hook requires --tun-device",
            ArgumentError::CredentialSourcesExclusive => "--credentials-stdin and --credentials-file are mutually exclusive",
            ArgumentError::NoHashes => "[КЛИЕНТ] Нет хешей VK",
        }
    }
}

/// How many hashes, workers and groups of workers a client uses.
#[derive(Clone, Copy, Debug, PartialEq, Eq, Structural)]
pub struct WorkerPlan {
    pub hashes: usize,
    pub workers: usize,
    pub groups: usize,
}

/// Plans the workers for the hashes that were given; surplus hashes are not used.
pub fn worker_plan(requested: usize, hash_count: usize, allow_hash_redistribution: bool) -> (r:
    Result<WorkerPlan, ArgumentError>)
    ensures
        r is Err <==> hash_count == 0,
        r is Err ==> r->Err_0 == ArgumentError::NoHashes,
        r is Ok ==> {
            let plan = r->Ok_0;
            &&& plan.hashes == bounded(hash_count as int, 1, MAX_VK_HASHES as int)
            &&& plan.workers == granted_workers(
                requested as nat,
                hash_count as nat,
                allow_hash_redistribution,
            )
            &&& plan.hashes <= hash_count && plan.hashes <= 6 && (plan.hashes == hash_count
                || plan.hashes == 6)
            &&& plan.groups as int == plan.workers as int / 9
            &&& plan.groups as int * WORKERS_PER_GROUP as int == plan.workers
        },
{
    if hash_count == 0 {
        return Err(ArgumentError::NoHashes);
    }
    let hashes: usize = if hash_count > MAX_VK_HASHES {
        MAX_VK_HASHES
    } else {
        hash_count
    };
    let workers: usize = normalize_worker_count_for_hashes(
        requested,
        hashes,
        allow_hash_redistribution,
    );
    Ok(WorkerPlan { hashes, workers, groups: workers / WORKERS_PER_GROUP })
}

/// Where the packets of the device come from.
#[derive(Debug)]
pub enum TunSource {
    Device(String),
    Uds(String),
    Socket,
}

/// What is said to arguments that name peer, hashes and password.
pub open spec fn identity_verdict(arguments: ClientArguments) -> Result<(), ArgumentError> {
    let js_hashes = arguments.vk_hash_mode@ == "auto_js"@;
    if arguments.vk_auth_mode@ == "auto_js"@ && !js_hashes {
        Err::<(), ArgumentError>(ArgumentError::JsAuthNeedsJsHashes)
    } else if arguments.peer@.len() == 0 || (!js_hashes && arguments.vk@.len() == 0) {
        Err::<(), ArgumentError>(ArgumentError::PeerOrHashesMissing)
    } else if arguments.password@.len() == 0 {
        Err::<(), ArgumentError>(ArgumentError::PasswordMissing)
    } else {
        Ok::<(), ArgumentError>(())
    }
}

/// A client connects only with a peer, a password and hashes, and may leave the hashes out
/// only where it collects them itself; signing in that way needs hashes collected that way.
/// Each refusal says what is missing, and the modes are looked at first.
pub proof fn law_identity_is_complete(a: ClientArguments)
    ensures
        identity_verdict(a) is Ok ==> a.peer@.len() > 0 && a.password@.len() > 0,
        identity_verdict(a) is Ok && a.vk@.len() == 0 ==> a.vk_hash_mode@ == "auto_js"@,
        identity_verdict(a) is Ok && a.vk_auth_mode@ == "auto_js"@ ==> a.vk_hash_mode@
            == "auto_js"@,
        a.peer@.len() > 0 && a.password@.len() > 0 && a.vk_hash_mode@ == "auto_js"@
            ==> identity_verdict(a) is Ok,
        a.peer@.len() > 0 && a.password@.len() > 0 && a.vk@.len() > 0 && a.vk_auth_mode@
            != "auto_js"@ ==> identity_verdict(a) is Ok,
        a.vk_auth_mode@ == "auto_js"@ && a.vk_hash_mode@ != "auto_js"@ ==> identity_verdict(a)
            == Err::<(), ArgumentError>(ArgumentError::JsAuthNeedsJsHashes),
        a.vk_auth_mode@ != "auto_js"@ && a.peer@.len() == 0 ==> identity_verdict(a) == Err::<
            (),
            ArgumentError,
        >(ArgumentError::PeerOrHashesMissing),
        identity_verdict(a) == Err::<(), ArgumentError>(ArgumentError::PasswordMissing)
            ==> a.password@.len() == 0 && a.peer@.len() > 0,
{
}

/// Checks who connects where: peer, hashes and password.
pub fn check_identity(arguments: &ClientArguments) -> (r: Result<(), ArgumentError>)
    ensures
        r == identity_verdict(*arguments),
{
    let js_hashes = same_text(arguments.vk_hash_mode.as_str(), "auto_js");
    let js_auth = same_text(arguments.vk_auth_mode.as_str(), "auto_js");
    if js_auth && !js_hashes {
        return Err(ArgumentError::JsAuthNeedsJsHashes);
    }
    if arguments.peer.as_str().is_empty() || (!js_hashes && arguments.vk.as_str().is_empty()) {
        return Err(ArgumentError::PeerOrHashesMissing);
    }
    if arguments.password.as_str().is_empty() {
        return Err(ArgumentError::PasswordMissing);
    }
    Ok(())
}

/// How packets come and go for given arguments.
pub open spec fn transport_decided(
    arguments: ClientArguments,
    r: Result<TunSource, ArgumentError>,
) -> bool {
    let uds = arguments.tun_uds@.len() > 0;
    let device = arguments.tun_device@.len() > 0;
    if uds && device {
        r == Err::<TunSource, ArgumentError>(ArgumentError::TunModesExclusive)
    } else if arguments.socks5@.len() > 0 && (uds || device) {
        r == Err::<TunSource, ArgumentError>(ArgumentError::SocksWithTun)
    } else if arguments.tun_config_hook@.len() > 0 && !device {
        r == Err::<TunSource, ArgumentError>(ArgumentError::HookWithoutDevice)
    } else if device {
        r == Ok::<TunSource, ArgumentError>(TunSource::Device(arguments.tun_device))
    } else if uds {
        r == Ok::<TunSource, ArgumentError>(TunSource::Uds(arguments.tun_uds))
    } else {
        r == Ok::<TunSource, ArgumentError>(TunSource::Socket)
    }
}

/// Packets come from one place: the device that was named, the socket that was named, or
/// else the local one. A local proxy stands beside neither, and a hook needs a device.
pub proof fn law_packets_come_from_one_place(
    a: ClientArguments,
    r: Result<TunSource, ArgumentError>,
)
    requires
        transport_decided(a, r),
    ensures
        r matches Ok(TunSource::Device(name)) ==> name == a.tun_device && name@.len() > 0,
        r matches Ok(TunSource::Uds(name)) ==> name == a.tun_uds && name@.len() > 0,
        r matches Ok(TunSource::Socket) ==> a.tun_device@.len() == 0 && a.tun_uds@.len() == 0,
        r is Ok ==> a.tun_device@.len() == 0 || a.tun_uds@.len() == 0,
        r is Ok && a.socks5@.len() > 0 ==> (r matches Ok(TunSource::Socket)),
        r is Ok && a.tun_config_hook@.len() > 0 ==> (r matches Ok(TunSource::Device(_))),
        r is Err ==> {
            ||| r == Err::<TunSource, ArgumentError>(ArgumentError::TunModesExclusive)
                && a.tun_uds@.len() > 0 && a.tun_device@.len() > 0
            ||| r == Err::<TunSource, ArgumentError>(ArgumentError::SocksWithTun)
                && a.socks5@.len() > 0
            ||| r == Err::<TunSource, ArgumentError>(ArgumentError::HookWithoutDevice)
                && a.tun_config_hook@.len() > 0 && a.tun_device@.len() == 0
        },
{
}

/// Checks how packets come and go: at most one tunnel device, no local proxy beside it,
/// and a configuration hook only for a device.
pub fn check_transport(arguments: &ClientArguments) -> (r: Result<TunSource, ArgumentError>)
    ensures
        transport_decided(*arguments, r),
{
    let uds = !arguments.tun_uds.as_str().is_empty();
    let device = !arguments.tun_device.as_str().is_empty();
    if uds && device {
        return Err(ArgumentError::TunModesExclusive);
    }
    if !arguments.socks5.as_str().is_empty() && (uds || device) {
        return Err(ArgumentError::SocksWithTun);
    }
    if !arguments.tun_config_hook.as_str().is_empty() && !device {
        return Err(ArgumentError::HookWithoutDevice);
    }
    if device {
        Ok(TunSource::Device(arguments.tun_device.clone()))
    } else if uds {
        Ok(TunSource::Uds(arguments.tun_uds.clone()))
    } else {
        Ok(TunSource::Socket)
    }
}

/// Where credentials come from.
#[derive(Clone, Copy, Debug, PartialEq, Eq, Structural)]
pub enum CredentialSource {
    Arguments,
    Stdin,
    File,
}

/// Decides where credentials come from.
pub fn credential_source(from_stdin: bool, file: &str) -> (r: Result<
    CredentialSource,
    ArgumentError,
>)
    ensures
        r == credentials_from(from_stdin, file@),
{
    if from_stdin && !file.is_empty() {
        Err(ArgumentError::CredentialSourcesExclusive)
    } else if from_stdin {
        Ok(CredentialSource::Stdin)
    } else if !file.is_empty() {
        Ok(CredentialSource::File)
    } else {
        Ok(CredentialSource::Arguments)
    }
}

/// Why credentials were refused.
#[derive(Clone, Copy, Debug, PartialEq, Eq, Structural)]
pub enum CredentialsError {
    /// The line is too long.
    TooLarge,
    /// The text behind the prefix, or in the file, is too long.
    JsonTooLarge,
    /// The line does not begin as it should.
    WrongPrefix,
    /// The password or the hashes are missing.
    Incomplete,
}

impl CredentialsError {
    /// The error in words.
    pub fn message(&self) -> (r: &'static str)
        ensures
            r@ == credentials_error_words(*self),
    {
        match self {
            CredentialsError::TooLarge => "слишком большой пакет credentials stdin",
            CredentialsError::JsonTooLarge => "слишком большой JSON credentials",
            CredentialsError::WrongPrefix => "неверный префикс credentials stdin",
            CredentialsError::Incomplete => "credentials stdin не содержит password или vk",
        }
    }
}

/// The text without line ends at its end.
pub open spec fn trim_line_end(s: Seq<char>) -> Seq<char>
    decreases s.len(),
{
    if s.len() > 0 && (s.last() == '\r' || s.last() == '\n') {
        trim_line_end(s.drop_last())
    } else {
        s
    }
}

fn without_line_end(s: &[char]) -> (r: Vec<char>)
    ensures
        r@ == trim_line_end(s@),
{
    let mut n: usize = s.len();
    proof {
        assert(s@.take(n as int) =~= s@);
    }
    while n > 0 && (s[n - 1] == '\r' || s[n - 1] == '\n')
        invariant
            n <= s@.len(),
            trim_line_end(s@) == trim_line_end(s@.take(n as int)),
        decreases n,
    {
        proof {
            assert(s@.take(n as int).last() == s@[n - 1]);
            assert(s@.take(n as int).drop_last() =~= s@.take(n - 1));
        }
        n = n - 1;
    }
    proof {
        if n > 0 {
            assert(s@.take(n as int).last() == s@[n - 1]);
        }
        assert(s@.subrange(0, n as int) =~= s@.take(n as int));
    }
    sub_chars(s, 0, n)
}

/// The credentials text that a line of the standard input carries behind its prefix.
pub fn stdin_credentials(line: &str) -> (r: Result<String, CredentialsError>)
    ensures
        stdin_read(line@, r),
{
    if line.as_bytes().len() > MAX_CREDENTIALS_BYTES {
        return Err(CredentialsError::TooLarge);
    }
    let chars = chars_of(line);
    let text = without_line_end(chars.as_slice());
    match strip_text(text.as_slice(), "CSQTT_CREDENTIALS|") {
        Some(rest) => Ok(string_of(rest.as_slice())),
        None => Err(CredentialsError::WrongPrefix),
    }
}

/// Checks the length of a credentials text before it is read.
pub fn check_credentials_size(payload: &str) -> (r: Result<(), CredentialsError>)
    ensures
        r == (if vstd::utf8::encode_utf8(payload@).len() > MAX_CREDENTIALS_BYTES {
            Err::<(), CredentialsError>(CredentialsError::JsonTooLarge)
        } else {
            Ok::<(), CredentialsError>(())
        }),
{
    if payload.as_bytes().len() > MAX_CREDENTIALS_BYTES {
        Err(CredentialsError::JsonTooLarge)
    } else {
        Ok(())
    }
}

impl ClientArguments {
    /// Takes over credentials. The password is needed; hashes are needed unless they are
    /// made automatically.
    pub fn apply_credentials(&mut self, password: String, vk: String) -> (r: Result<
        (),
        CredentialsError,
    >)
        ensures
            credentials_applied(*old(self), *final(self), password, vk, r),
    {
        if password.as_str().is_empty() || (vk.as_str().is_empty() && !same_text(
            self.vk_hash_mode.as_str(),
            "auto_js",
        )) {
            return Err(CredentialsError::Incomplete);
        }
        self.password = password;
        self.vk = vk;
        Ok(())
    }
}

/// What base64 text with padding stands for, where it is such text.
pub uninterp spec fn base64_decoded(text: Seq<char>) -> Option<Seq<u8>>;

/// `STANDARD.decode` of base64 reads padded base64 text.
#[verifier::external_body]
fn decode_standard(text: &str) -> (r: Option<Vec<u8>>)
    ensures
        match r {
            Some(data) => base64_decoded(text@) == Some(data@),
            None => base64_decoded(text@) is None,
        },
{
    base64::engine::general_purpose::STANDARD.decode(text).ok()
}

/// Why bootstrap data were refused.
#[derive(Clone, Copy, Debug, PartialEq, Eq, Structural)]
pub enum BootstrapError {
    /// The line does not begin as it should.
    WrongPrefix,
    /// The packet is too long.
    TooLarge,
    /// The packet is not base64.
    Corrupt,
}

impl BootstrapError {
    /// The error in words.
    pub fn message(&self) -> (r: &'static str)
        ensures
            r@ == bootstrap_error_words(*self),
    {
        match self {
            BootstrapError::WrongPrefix => "неверный формат данных Auto JS",
            BootstrapError::TooLarge => "слишком большие данные Auto JS",
            BootstrapError::Corrupt => "повреждены данные Auto JS",
        }
    }
}

/// The encoded data that a bootstrap line carries behind its prefix.
pub fn bootstrap_payload(line: &str) -> (r: Result<String, BootstrapError>)
    ensures
        bootstrap_taken(line@, r),
{
    let chars = chars_of(line);
    let text = trimmed(chars.as_slice());
    match strip_text(text.as_slice(), "VK_JS_BOOTSTRAP:") {
        None => Err(BootstrapError::WrongPrefix),
        Some(rest) => {
            let encoded = string_of(rest.as_slice());
            if encoded.as_str().as_bytes().len() > MAX_BOOTSTRAP_BYTES {
                Err(BootstrapError::TooLarge)
            } else {
                Ok(encoded)
            }
        },
    }
}

/// The data that a bootstrap line carries.
pub fn read_vk_js_bootstrap(line: &str) -> (r: Result<Vec<u8>, BootstrapError>)
    ensures
        ({
            let text = trim(line@);
            let encoded = text.skip("VK_JS_BOOTSTRAP:"@.len() as int);
            if !starts_with(text, "VK_JS_BOOTSTRAP:"@) {
                r == Err::<Vec<u8>, BootstrapError>(BootstrapError::WrongPrefix)
            } else if vstd::utf8::encode_utf8(encoded).len() > MAX_BOOTSTRAP_BYTES {
                r == Err::<Vec<u8>, BootstrapError>(BootstrapError::TooLarge)
            } else {
                match base64_decoded(encoded) {
                    Some(data) => r is Ok && r->Ok_0@ == data,
                    None => r == Err::<Vec<u8>, BootstrapError>(BootstrapError::Corrupt),
                }
            }
        }),
{
    match bootstrap_payload(line) {
        Err(error) => Err(error),
        Ok(encoded) => match decode_standard(encoded.as_str()) {
            Some(data) => Ok(data),
            None => Err(BootstrapError::Corrupt),
        },
    }
}

/// The client numbers of a comma separated list.
pub fn client_ids(list: &str) -> (r: Vec<String>)
    ensures
        texts(r@) == list_items(list@, ','),
{
    let chars = chars_of(list);
    let items = items_of(chars.as_slice(), ',');
    let mut r: Vec<String> = Vec::new();
    let mut i: usize = 0;
    while i < items.len()
        invariant
            i <= items@.len(),
            r@.len() == i,
            forall|k: int| 0 <= k < i ==> (#[trigger] r@[k])@ == items@[k]@,
        decreases items@.len() - i,
    {
        r.push(string_of(items[i].as_slice()));
        i = i + 1;
    }
    proof {
        assert(texts(r@) =~= views(items@));
    }
    r
}

/// A tunnel configuration hook is named by an absolute path.
pub fn hook_path_allowed(path: &str) -> (r: bool)
    ensures
        r == (path@.len() > 0 && path@[0] == '/'),
{
    let chars = chars_of(path);
    chars.len() > 0 && chars[0] == '/'
}

/// How the captcha mode is described.
pub fn captcha_description(mode: &str) -> (r: &'static str)
    ensures
        r@ == captcha_words(mode@),
{
    if same_text(mode, "wv") {
        "WBV selected in Android"
    } else if same_text(mode, "rjs") {
        "RJS Rust v2 with WBV Auto fallback"
    } else {
        "AUTO: Rust v2 x2 -> WBV Auto x2 -> Rust v2 x1 -> Manual WBV"
    }
}

// ---------------------------------------------------------------------------
// Configurations and controls
// ---------------------------------------------------------------------------

/// What a received configuration calls for.
#[derive(Debug)]
pub enum ConfigStep {
    /// It is the one that was received last.
    Repeated,
    /// It is passed on.
    Pass,
    /// It names a tunnel address and resolvers; the device is set up and it is passed on.
    Tunnel(String, String),
}

/// The field of a configuration at a position, empty where it has none.
pub open spec fn config_field(value: Seq<char>, i: int) -> Seq<char> {
    if i < split(value, ':').len() {
        split(value, ':')[i]
    } else {
        Seq::empty()
    }
}

/// Decides about a received configuration: `TUNCONF:address:resolvers:..`.
pub fn config_step(last: Option<&str>, config: &str) -> (r: ConfigStep)
    ensures
        config_taken(
            match last {
                Some(text) => Some(text@),
                None => None,
            },
            config@,
            r,
        ),
{
    if let Some(previous) = last {
        if same_text(previous, config) {
            return ConfigStep::Repeated;
        }
    }
    let chars = chars_of(config);
    match strip_text(chars.as_slice(), "TUNCONF:") {
        None => ConfigStep::Pass,
        Some(value) => {
            let fields = split_on(value.as_slice(), ':');
            proof {
                assert(views(fields@)[0] == fields@[0]@);
                if fields@.len() > 1 {
                    assert(views(fields@)[1] == fields@[1]@);
                }
            }
            let ip = string_of(fields[0].as_slice());
            let dns = if fields.len() > 1 {
                string_of(fields[1].as_slice())
            } else {
                String::new()
            };
            proof {
                assert(fields@.len() == split(value@, ':').len());
                assert(dns@ =~= config_field(value@, 1));
            }
            ConfigStep::Tunnel(ip, dns)
        },
    }
}

/// A line of the control input.
#[derive(Debug)]
pub enum ControlCommand {
    Pause,
    Resume,
    FinishCalls,
    Stop,
    CaptchaResult(String),
    Unknown,
}

/// Whether `c` is what a control line means.
pub open spec fn is_command(line: Seq<char>, c: ControlCommand) -> bool {
    if line == "PAUSE"@ {
        c is Pause
    } else if line == "RESUME"@ {
        c is Resume
    } else if line == "FINISH_VK_CALLS"@ {
        c is FinishCalls
    } else if line == "STOP"@ {
        c is Stop
    } else if starts_with(line, "CAPTCHA_RESULT|"@) {
        c is CaptchaResult && line == "CAPTCHA_RESULT|"@ + c->CaptchaResult_0@
    } else {
        c is Unknown
    }
}

/// Reads a line of the control input; the flag tells whether the line is logged.
pub fn control_command(line: &str) -> (r: (ControlCommand, bool))
    ensures
        is_command(trim(line@), r.0),
        r.1 == is_logged(trim(line@)),
{
    let chars = chars_of(line);
    let text = trimmed(chars.as_slice());
    let s = text.as_slice();
    let stopped = chars_of("error:tunnel stopped");
    let finish = text_is(s, "FINISH_VK_CALLS");
    let log = find_text(s, stopped.as_slice()).is_none() && !finish;
    let command = if text_is(s, "PAUSE") {
        ControlCommand::Pause
    } else if text_is(s, "RESUME") {
        ControlCommand::Resume
    } else if finish {
        ControlCommand::FinishCalls
    } else if text_is(s, "STOP") {
        ControlCommand::Stop
    } else {
        match strip_text(s, "CAPTCHA_RESULT|") {
            Some(result) => ControlCommand::CaptchaResult(string_of(result.as_slice())),
            None => ControlCommand::Unknown,
        }
    };
    (command, log)
}

/// How often the address of the peer is looked up.
pub const PEER_ATTEMPTS: u32 = 15;

/// Milliseconds of rest after a look-up that failed.
pub const PEER_PAUSE_MS: u64 = 1000;

/// What follows a look-up of the peer.
#[derive(Clone, Copy, Debug, PartialEq, Eq, Structural)]
pub enum PeerStep {
    /// The address is used.
    Use,
    /// Rests for this many milliseconds and looks it up again.
    Again(u64),
    /// Rests for this many milliseconds and ends with the error of this look-up.
    GiveUp(u64),
}

/// Decides after look-up number `attempt`, counted from one.
pub fn peer_step(attempt: u32, found: bool) -> (r: PeerStep)
    ensures
        r == next_peer(attempt, found),
{
    if found {
        PeerStep::Use
    } else if attempt < PEER_ATTEMPTS {
        PeerStep::Again(PEER_PAUSE_MS)
    } else {
        PeerStep::GiveUp(PEER_PAUSE_MS)
    }
}

/// What the end of the control input calls for.
#[derive(Clone, Copy, Debug, PartialEq, Eq, Structural)]
pub struct ControlEnd {
    /// It is written to the log.
    pub report: bool,
    /// The client stops.
    pub stop: bool,
}

/// Decides when the control input was closed, or could not be read: a client that is to
/// be controlled stops. A failure is always reported, and a closed input where it stops
/// the client.
pub fn control_end(failed: bool, control_required: bool) -> (r: ControlEnd)
    ensures
        r == (ControlEnd { report: failed || control_required, stop: control_required }),
{
    ControlEnd { report: failed || control_required, stop: control_required }
}

/// The flags that may be written with one dash.
pub proof fn law_flags_with_one_dash(name: Seq<char>, value: Seq<char>)
    ensures
        flag_names().contains(name) <==> name == "turn"@ || name == "port"@ || name == "listen"@
            || name == "vk"@ || name == "vk-hash-mode"@ || name == "peer"@ || name == "device-id"@
            || name == "password"@ || name == "vk-auth-mode"@ || name == "captcha-mode"@ || name
            == "fingerprint"@ || name == "client-ids"@ || name == "obfs"@ || name
            == "turn-transport"@ || name == "gen"@ || name == "salt"@ || name == "tun-uds"@ || name
            == "tun-device"@ || name == "tun-config-hook"@ || name == "socks5"@ || name
            == "allow-hash-redistribution"@ || name == "validate-vk-hashes"@ || name
            == "credentials-stdin"@ || name == "credentials-file"@,
        !single_dash_flag(seq!['-', '-'] + name),
        name.len() > 0 && name[0] != '-' && !name.contains('=') ==> (single_dash_flag(
            seq!['-'] + name,
        ) <==> flag_names().contains(name)),
        name.len() > 0 && name[0] != '-' && !name.contains('=') && !value.contains('=') ==> (
        single_dash_flag(seq!['-'] + name + seq!['='] + value) <==> flag_names().contains(name)),
        name.len() > 0 && name[0] != '-' ==> !single_dash_flag(name),
{
    let f = flag_names();
    assert(f[0] == "turn"@ && f[1] == "port"@ && f[2] == "listen"@ && f[3] == "vk"@ && f[4]
        == "vk-hash-mode"@ && f[5] == "peer"@ && f[6] == "device-id"@ && f[7] == "password"@ && f[8]
        == "vk-auth-mode"@ && f[9] == "captcha-mode"@ && f[10] == "fingerprint"@ && f[11]
        == "client-ids"@ && f[12] == "obfs"@ && f[13] == "turn-transport"@ && f[14] == "gen"@
        && f[15] == "salt"@ && f[16] == "tun-uds"@ && f[17] == "tun-device"@ && f[18]
        == "tun-config-hook"@ && f[19] == "socks5"@ && f[20] == "allow-hash-redistribution"@
        && f[21] == "validate-vk-hashes"@ && f[22] == "credentials-stdin"@ && f[23]
        == "credentials-file"@);
    let one = seq!['-'] + name;
    let two = seq!['-'] + name + seq!['='] + value;
    assert(one.skip(1) =~= name);
    assert(two.skip(1) =~= name + seq!['='] + value);
    if !name.contains('=') {
        lemma_split_join(seq![name], '=');
        assert(join(seq![name], seq!['=']) == name);
        if !value.contains('=') {
            let parts = seq![name, value];
            lemma_split_join(parts, '=');
            reveal_with_fuel(join, 2);
            assert(parts.drop_last() =~= seq![name]);
            assert(join(parts, seq!['=']) == name + seq!['='] + value);
        }
    }
}

/// What is cut off the end of a line is line ends, all of them and nothing else.
pub proof fn law_line_ends_are_cut_off(s: Seq<char>)
    ensures
        ({
            let t = trim_line_end(s);
            &&& t.len() <= s.len()
            &&& t == s.take(t.len() as int)
            &&& t.len() > 0 ==> t.last() != '\r' && t.last() != '\n'
            &&& forall|i: int|
                t.len() <= i < s.len() ==> #[trigger] s[i] == '\r' || s[i] == '\n'
        }),
    decreases s.len(),
{
    if s.len() > 0 && (s.last() == '\r' || s.last() == '\n') {
        let d = s.drop_last();
        law_line_ends_are_cut_off(d);
        let t = trim_line_end(s);
        assert(t =~= s.take(t.len() as int));
        assert forall|i: int| t.len() <= i < s.len() implies #[trigger] s[i] == '\r' || s[i]
            == '\n' by {
            if i < d.len() {
                assert(d[i] == s[i]);
            }
        }
    } else {
        assert(s.take(s.len() as int) =~= s);
    }
}

/// The fields of a configuration are what stands between its colons, in order.
pub proof fn law_config_fields(parts: Seq<Seq<char>>, i: int)
    requires
        parts.len() >= 1,
        forall|k: int| 0 <= k < parts.len() ==> !(#[trigger] parts[k]).contains(':'),
        0 <= i,
    ensures
        i < parts.len() ==> config_field(join(parts, seq![':']), i) == parts[i],
        i >= parts.len() ==> config_field(join(parts, seq![':']), i).len() == 0,
{
    lemma_split_join(parts, ':');
}

/// Each command line means one command.
pub proof fn law_command_lines(line: Seq<char>, answer: Seq<char>, c: ControlCommand)
    requires
        is_command(line, c),
    ensures
        line == "PAUSE"@ <==> c is Pause,
        line == "RESUME"@ <==> c is Resume,
        line == "STOP"@ <==> c is Stop,
        line == "FINISH_VK_CALLS"@ <==> c is FinishCalls,
        line == "CAPTCHA_RESULT|"@ + answer ==> (c matches ControlCommand::CaptchaResult(got)
            && got@ == answer),
        c is CaptchaResult ==> starts_with(line, "CAPTCHA_RESULT|"@),
        c is Unknown ==> !starts_with(line, "CAPTCHA_RESULT|"@),
{
    reveal_strlit("PAUSE");
    reveal_strlit("RESUME");
    reveal_strlit("STOP");
    reveal_strlit("FINISH_VK_CALLS");
    reveal_strlit("CAPTCHA_RESULT|");
    let p = "CAPTCHA_RESULT|"@;
    assert("PAUSE"@[0] == 'P' && "RESUME"@[0] == 'R' && "STOP"@[0] == 'S' && "FINISH_VK_CALLS"@[0]
        == 'F' && p[0] == 'C');
    if line == p + answer {
        assert(line.take(p.len() as int) =~= p);
        assert(line[0] == 'C');
        if let ControlCommand::CaptchaResult(got) = c {
            assert(line.skip(p.len() as int) =~= answer);
            assert((p + got@).skip(p.len() as int) =~= got@);
        }
    }
    if starts_with(line, p) {
        assert(line.take(p.len() as int)[0] == line[0]);
    }
}

/// Where credentials come from for given arguments.
pub open spec fn credentials_from(from_stdin: bool, file: Seq<char>) -> Result<
    CredentialSource,
    ArgumentError,
> {
    if from_stdin && file.len() > 0 {
        Err::<CredentialSource, ArgumentError>(ArgumentError::CredentialSourcesExclusive)
    } else if from_stdin {
        Ok::<CredentialSource, ArgumentError>(CredentialSource::Stdin)
    } else if file.len() > 0 {
        Ok::<CredentialSource, ArgumentError>(CredentialSource::File)
    } else {
        Ok::<CredentialSource, ArgumentError>(CredentialSource::Arguments)
    }
}

/// Credentials come from one place: standard input, a file that was named, or else the
/// arguments themselves; two places at once are refused.
pub proof fn law_credentials_come_from_one_place(from_stdin: bool, file: Seq<char>)
    ensures
        credentials_from(from_stdin, file) is Err <==> from_stdin && file.len() > 0,
        credentials_from(from_stdin, file) == Ok::<CredentialSource, ArgumentError>(
            CredentialSource::Stdin,
        ) <==> from_stdin && file.len() == 0,
        credentials_from(from_stdin, file) == Ok::<CredentialSource, ArgumentError>(
            CredentialSource::File,
        ) <==> !from_stdin && file.len() > 0,
        credentials_from(from_stdin, file) == Ok::<CredentialSource, ArgumentError>(
            CredentialSource::Arguments,
        ) <==> !from_stdin && file.len() == 0,
{
}

/// What is read from a line of standard input.
pub open spec fn stdin_read(line: Seq<char>, r: Result<String, CredentialsError>) -> bool {
    let text = trim_line_end(line);
    if vstd::utf8::encode_utf8(line).len() > MAX_CREDENTIALS_BYTES {
        r == Err::<String, CredentialsError>(CredentialsError::TooLarge)
    } else if !starts_with(text, "CSQTT_CREDENTIALS|"@) {
        r == Err::<String, CredentialsError>(CredentialsError::WrongPrefix)
    } else {
        r is Ok && text == "CSQTT_CREDENTIALS|"@ + r->Ok_0@
    }
}

/// Credentials that were written on a line are read back, without the line end; a line of
/// more than 128 kibibytes or without the prefix is refused.
pub proof fn law_stdin_credentials_are_read_back(
    credentials: Seq<char>,
    line: Seq<char>,
    r: Result<String, CredentialsError>,
)
    requires
        credentials.len() > 0,
        credentials.last() != '\r',
        credentials.last() != '\n',
        stdin_read(line, r),
    ensures
        vstd::utf8::encode_utf8(line).len() > 131072 ==> r == Err::<String, CredentialsError>(
            CredentialsError::TooLarge,
        ),
        vstd::utf8::encode_utf8(line).len() <= 131072 && line == "CSQTT_CREDENTIALS|"@ + credentials
            ==> r is Ok && r->Ok_0@ == credentials,
        vstd::utf8::encode_utf8(line).len() <= 131072 && line == ("CSQTT_CREDENTIALS|"@
            + credentials).push('\n') ==> r is Ok && r->Ok_0@ == credentials,
        vstd::utf8::encode_utf8(line).len() <= 131072 && !starts_with(line, "CSQTT_CREDENTIALS|"@)
            ==> r == Err::<String, CredentialsError>(CredentialsError::WrongPrefix),
{
    let p = "CSQTT_CREDENTIALS|"@;
    let whole = p + credentials;
    assert(whole.last() == credentials.last());
    assert(trim_line_end(whole) == whole);
    assert(whole.push('\n').drop_last() =~= whole);
    assert(trim_line_end(whole.push('\n')) == trim_line_end(whole));
    assert(whole.take(p.len() as int) =~= p);
    assert(whole.skip(p.len() as int) =~= credentials);
    if r is Ok {
        assert((p + r->Ok_0@).skip(p.len() as int) =~= r->Ok_0@);
    }
    law_line_ends_are_cut_off(line);
    let t = trim_line_end(line);
    if starts_with(t, p) {
        assert(line.take(p.len() as int) =~= t.take(p.len() as int));
    }
}

/// What credentials change in the arguments.
pub open spec fn credentials_applied(
    before: ClientArguments,
    after: ClientArguments,
    password: String,
    vk: String,
    r: Result<(), CredentialsError>,
) -> bool {
    if password@.len() == 0 || (vk@.len() == 0 && before.vk_hash_mode@ != "auto_js"@) {
        r == Err::<(), CredentialsError>(CredentialsError::Incomplete) && after == before
    } else {
        r is Ok && after == (ClientArguments { password, vk, ..before })
    }
}

/// Complete credentials replace the password and the hashes and nothing else; incomplete
/// ones replace nothing.
pub proof fn law_credentials_replace_two_arguments(
    before: ClientArguments,
    after: ClientArguments,
    password: String,
    vk: String,
    r: Result<(), CredentialsError>,
)
    requires
        credentials_applied(before, after, password, vk, r),
    ensures
        r is Ok ==> after.password == password && after.vk == vk && password@.len() > 0,
        r is Ok && vk@.len() == 0 ==> before.vk_hash_mode@ == "auto_js"@,
        r is Err ==> after == before,
        password@.len() > 0 && vk@.len() > 0 ==> r is Ok,
        password@.len() > 0 && before.vk_hash_mode@ == "auto_js"@ ==> r is Ok,
        after.peer == before.peer && after.vk_hash_mode == before.vk_hash_mode && after.vk_auth_mode
            == before.vk_auth_mode && after.tun_uds == before.tun_uds && after.tun_device
            == before.tun_device && after.tun_config_hook == before.tun_config_hook && after.socks5
            == before.socks5,
{
}

/// What is taken from a line that should hold collected data.
pub open spec fn bootstrap_taken(line: Seq<char>, r: Result<String, BootstrapError>) -> bool {
    let text = trim(line);
    if !starts_with(text, "VK_JS_BOOTSTRAP:"@) {
        r == Err::<String, BootstrapError>(BootstrapError::WrongPrefix)
    } else if vstd::utf8::encode_utf8(text.skip("VK_JS_BOOTSTRAP:"@.len() as int)).len()
        > MAX_BOOTSTRAP_BYTES {
        r == Err::<String, BootstrapError>(BootstrapError::TooLarge)
    } else {
        r is Ok && r->Ok_0@ == text.skip("VK_JS_BOOTSTRAP:"@.len() as int)
    }
}

/// What stands behind the prefix is taken whole, up to 32 kibibytes.
pub proof fn law_collected_data_is_taken_whole(
    line: Seq<char>,
    data: Seq<char>,
    r: Result<String, BootstrapError>,
)
    requires
        bootstrap_taken(line, r),
    ensures
        trim(line) == "VK_JS_BOOTSTRAP:"@ + data && vstd::utf8::encode_utf8(data).len() <= 32768
            ==> r is Ok && r->Ok_0@ == data,
        trim(line) == "VK_JS_BOOTSTRAP:"@ + data && vstd::utf8::encode_utf8(data).len() > 32768
            ==> r == Err::<String, BootstrapError>(BootstrapError::TooLarge),
        !starts_with(trim(line), "VK_JS_BOOTSTRAP:"@) ==> r == Err::<String, BootstrapError>(
            BootstrapError::WrongPrefix,
        ),
{
    let p = "VK_JS_BOOTSTRAP:"@;
    if trim(line) == p + data {
        assert((p + data).take(p.len() as int) =~= p);
        assert((p + data).skip(p.len() as int) =~= data);
    }
}

/// What a configuration leads to.
pub open spec fn config_taken(last: Option<Seq<char>>, config: Seq<char>, r: ConfigStep) -> bool {
    let value = config.skip("TUNCONF:"@.len() as int);
    if last == Some(config) {
        r is Repeated
    } else if starts_with(config, "TUNCONF:"@) {
        r is Tunnel && r->Tunnel_0@ == config_field(value, 0) && r->Tunnel_1@ == config_field(
            value,
            1,
        )
    } else {
        r is Pass
    }
}

/// A configuration that came before is not acted on again; a new one gives its first two
/// fields, in order; any other text is passed on.
pub proof fn law_new_configurations_are_acted_on(
    last: Option<Seq<char>>,
    config: Seq<char>,
    parts: Seq<Seq<char>>,
    r: ConfigStep,
)
    requires
        parts.len() >= 2,
        forall|k: int| 0 <= k < parts.len() ==> !(#[trigger] parts[k]).contains(':'),
        config_taken(last, config, r),
    ensures
        last == Some(config) <==> r is Repeated,
        last != Some(config) && config == "TUNCONF:"@ + join(parts, seq![':']) ==> (
        r matches ConfigStep::Tunnel(a, b) && a@ == parts[0] && b@ == parts[1]),
        last != Some(config) && !starts_with(config, "TUNCONF:"@) ==> r is Pass,
{
    let p = "TUNCONF:"@;
    let value = join(parts, seq![':']);
    if config == p + value {
        assert(config.take(p.len() as int) =~= p);
        assert(config.skip(p.len() as int) =~= value);
        law_config_fields(parts, 0);
        law_config_fields(parts, 1);
    }
}

/// What follows a look for the peer.
pub open spec fn next_peer(attempt: u32, found: bool) -> PeerStep {
    if found {
        PeerStep::Use
    } else if attempt < PEER_ATTEMPTS {
        PeerStep::Again(PEER_PAUSE_MS)
    } else {
        PeerStep::GiveUp(PEER_PAUSE_MS)
    }
}

/// The peer is looked for fifteen times, a second apart.
pub proof fn law_peer_is_looked_for(attempt: u32)
    ensures
        next_peer(attempt, true) is Use,
        attempt <= 14 ==> next_peer(attempt, false) == PeerStep::Again(1000),
        attempt >= 15 ==> next_peer(attempt, false) == PeerStep::GiveUp(1000),
{
}

/// An error in words.
pub open spec fn argument_error_words(e: ArgumentError) -> Seq<char> {
    match e {
        ArgumentError::JsAuthNeedsJsHashes => "[КЛИЕНТ] Режим авторизации Auto JS требует режим хешей Auto JS"@,
        ArgumentError::PeerOrHashesMissing => "[КЛИЕНТ] Нужны -peer и хеши VK"@,
        ArgumentError::PasswordMissing => "[КЛИЕНТ] Нужен -password: WRAP ключ выводится из пароля подключения"@,
        ArgumentError::TunModesExclusive => "--tun-uds and --tun-device are mutually exclusive"@,
        ArgumentError::SocksWithTun => "--socks5 and TUN mode are mutually exclusive"@,
        ArgumentError::HookWithoutDevice => "--tun-config-hook requires --tun-device"@,
        ArgumentError::CredentialSourcesExclusive => "--credentials-stdin and --credentials-file are mutually exclusive"@,
        ArgumentError::NoHashes => "[КЛИЕНТ] Нет хешей VK"@,
    }
}

/// Every error has words of its own.
pub proof fn law_argument_errors_have_words(a: ArgumentError, b: ArgumentError)
    ensures
        argument_error_words(a) == argument_error_words(b) <==> a == b,
        a is JsAuthNeedsJsHashes <==> argument_error_words(a) == "[КЛИЕНТ] Режим авторизации Auto JS требует режим хешей Auto JS"@,
        a is PeerOrHashesMissing <==> argument_error_words(a) == "[КЛИЕНТ] Нужны -peer и хеши VK"@,
        a is PasswordMissing <==> argument_error_words(a) == "[КЛИЕНТ] Нужен -password: WRAP ключ выводится из пароля подключения"@,
        a is TunModesExclusive <==> argument_error_words(a) == "--tun-uds and --tun-device are mutually exclusive"@,
        a is SocksWithTun <==> argument_error_words(a) == "--socks5 and TUN mode are mutually exclusive"@,
        a is HookWithoutDevice <==> argument_error_words(a) == "--tun-config-hook requires --tun-device"@,
        a is CredentialSourcesExclusive <==> argument_error_words(a) == "--credentials-stdin and --credentials-file are mutually exclusive"@,
        a is NoHashes <==> argument_error_words(a) == "[КЛИЕНТ] Нет хешей VK"@,
{
    reveal_strlit("[КЛИЕНТ] Режим авторизации Auto JS требует режим хешей Auto JS");
    reveal_strlit("[КЛИЕНТ] Нужны -peer и хеши VK");
    reveal_strlit("[КЛИЕНТ] Нужен -password: WRAP ключ выводится из пароля подключения");
    reveal_strlit("--tun-uds and --tun-device are mutually exclusive");
    reveal_strlit("--socks5 and TUN mode are mutually exclusive");
    reveal_strlit("--tun-config-hook requires --tun-device");
    reveal_strlit("--credentials-stdin and --credentials-file are mutually exclusive");
    reveal_strlit("[КЛИЕНТ] Нет хешей VK");
    assert("[КЛИЕНТ] Режим авторизации Auto JS требует режим хешей Auto JS"@.len() != "[КЛИЕНТ] Нужны -peer и хеши VK"@.len());
    assert("[КЛИЕНТ] Режим авторизации Auto JS требует режим хешей Auto JS"@.len() != "[КЛИЕНТ] Нужен -password: WRAP ключ выводится из пароля подключения"@.len());
    assert("[КЛИЕНТ] Режим авторизации Auto JS требует режим хешей Auto JS"@.len() != "--tun-uds and --tun-device are mutually exclusive"@.len());
    assert("[КЛИЕНТ] Режим авторизации Auto JS требует режим хешей Auto JS"@.len() != "--socks5 and TUN mode are mutually exclusive"@.len());
    assert("[КЛИЕНТ] Режим авторизации Auto JS требует режим хешей Auto JS"@.len() != "--tun-config-hook requires --tun-device"@.len());
    assert("[КЛИЕНТ] Режим авторизации Auto JS требует режим хешей Auto JS"@.len() != "--credentials-stdin and --credentials-file are mutually exclusive"@.len());
    assert("[КЛИЕНТ] Режим авторизации Auto JS требует режим хешей Auto JS"@.len() != "[КЛИЕНТ] Нет хешей VK"@.len());
    assert("[КЛИЕНТ] Нужны -peer и хеши VK"@.len() != "[КЛИЕНТ] Нужен -password: WRAP ключ выводится из пароля подключения"@.len());
    assert("[КЛИЕНТ] Нужны -peer и хеши VK"@.len() != "--tun-uds and --tun-device are mutually exclusive"@.len());
    assert("[КЛИЕНТ] Нужны -peer и хеши VK"@.len() != "--socks5 and TUN mode are mutually exclusive"@.len());
    assert("[КЛИЕНТ] Нужны -peer и хеши VK"@.len() != "--tun-config-hook requires --tun-device"@.len());
    assert("[КЛИЕНТ] Нужны -peer и хеши VK"@.len() != "--credentials-stdin and --credentials-file are mutually exclusive"@.len());
    assert("[КЛИЕНТ] Нужны -peer и хеши VK"@.len() != "[КЛИЕНТ] Нет хешей VK"@.len());
    assert("[КЛИЕНТ] Нужен -password: WRAP ключ выводится из пароля подключения"@.len() != "--tun-uds and --tun-device are mutually exclusive"@.len());
    assert("[КЛИЕНТ] Нужен -password: WRAP ключ выводится из пароля подключения"@.len() != "--socks5 and TUN mode are mutually exclusive"@.len());
    assert("[КЛИЕНТ] Нужен -password: WRAP ключ выводится из пароля подключения"@.len() != "--tun-config-hook requires --tun-device"@.len());
    assert("[КЛИЕНТ] Нужен -password: WRAP ключ выводится из пароля подключения"@.len() != "--credentials-stdin and --credentials-file are mutually exclusive"@.len());
    assert("[КЛИЕНТ] Нужен -password: WRAP ключ выводится из пароля подключения"@.len() != "[КЛИЕНТ] Нет хешей VK"@.len());
    assert("--tun-uds and --tun-device are mutually exclusive"@.len() != "--socks5 and TUN mode are mutually exclusive"@.len());
    assert("--tun-uds and --tun-device are mutually exclusive"@.len() != "--tun-config-hook requires --tun-device"@.len());
    assert("--tun-uds and --tun-device are mutually exclusive"@.len() != "--credentials-stdin and --credentials-file are mutually exclusive"@.len());
    assert("--tun-uds and --tun-device are mutually exclusive"@.len() != "[КЛИЕНТ] Нет хешей VK"@.len());
    assert("--socks5 and TUN mode are mutually exclusive"@.len() != "--tun-config-hook requires --tun-device"@.len());
    assert("--socks5 and TUN mode are mutually exclusive"@.len() != "--credentials-stdin and --credentials-file are mutually exclusive"@.len());
    assert("--socks5 and TUN mode are mutually exclusive"@.len() != "[КЛИЕНТ] Нет хешей VK"@.len());
    assert("--tun-config-hook requires --tun-device"@.len() != "--credentials-stdin and --credentials-file are mutually exclusive"@.len());
    assert("--tun-config-hook requires --tun-device"@.len() != "[КЛИЕНТ] Нет хешей VK"@.len());
    assert("--credentials-stdin and --credentials-file are mutually exclusive"@.len() != "[КЛИЕНТ] Нет хешей VK"@.len());
}

/// An error in words.
pub open spec fn credentials_error_words(e: CredentialsError) -> Seq<char> {
    match e {
        CredentialsError::TooLarge => "слишком большой пакет credentials stdin"@,
        CredentialsError::JsonTooLarge => "слишком большой JSON credentials"@,
        CredentialsError::WrongPrefix => "неверный префикс credentials stdin"@,
        CredentialsError::Incomplete => "credentials stdin не содержит password или vk"@,
    }
}

/// Every error has words of its own.
pub proof fn law_credentials_errors_have_words(a: CredentialsError, b: CredentialsError)
    ensures
        credentials_error_words(a) == credentials_error_words(b) <==> a == b,
        a is TooLarge <==> credentials_error_words(a) == "слишком большой пакет credentials stdin"@,
        a is JsonTooLarge <==> credentials_error_words(a) == "слишком большой JSON credentials"@,
        a is WrongPrefix <==> credentials_error_words(a) == "неверный префикс credentials stdin"@,
        a is Incomplete <==> credentials_error_words(a) == "credentials stdin не содержит password или vk"@,
{
    reveal_strlit("слишком большой пакет credentials stdin");
    reveal_strlit("слишком большой JSON credentials");
    reveal_strlit("неверный префикс credentials stdin");
    reveal_strlit("credentials stdin не содержит password или vk");
    assert("слишком большой пакет credentials stdin"@.len() != "слишком большой JSON credentials"@.len());
    assert("слишком большой пакет credentials stdin"@.len() != "неверный префикс credentials stdin"@.len());
    assert("слишком большой пакет credentials stdin"@.len() != "credentials stdin не содержит password или vk"@.len());
    assert("слишком большой JSON credentials"@.len() != "неверный префикс credentials stdin"@.len());
    assert("слишком большой JSON credentials"@.len() != "credentials stdin не содержит password или vk"@.len());
    assert("неверный префикс credentials stdin"@.len() != "credentials stdin не содержит password или vk"@.len());
}

/// An error in words.
pub open spec fn bootstrap_error_words(e: BootstrapError) -> Seq<char> {
    match e {
        BootstrapError::WrongPrefix => "неверный формат данных Auto JS"@,
        BootstrapError::TooLarge => "слишком большие данные Auto JS"@,
        BootstrapError::Corrupt => "повреждены данные Auto JS"@,
    }
}

/// Every error has words of its own.
pub proof fn law_bootstrap_errors_have_words(a: BootstrapError, b: BootstrapError)
    ensures
        bootstrap_error_words(a) == bootstrap_error_words(b) <==> a == b,
        a is WrongPrefix <==> bootstrap_error_words(a) == "неверный формат данных Auto JS"@,
        a is TooLarge <==> bootstrap_error_words(a) == "слишком большие данные Auto JS"@,
        a is Corrupt <==> bootstrap_error_words(a) == "повреждены данные Auto JS"@,
{
    reveal_strlit("неверный формат данных Auto JS");
    reveal_strlit("слишком большие данные Auto JS");
    reveal_strlit("повреждены данные Auto JS");
    assert("неверный формат данных Auto JS"@[0] != "слишком большие данные Auto JS"@[0]);
    assert("неверный формат данных Auto JS"@.len() != "повреждены данные Auto JS"@.len());
    assert("слишком большие данные Auto JS"@.len() != "повреждены данные Auto JS"@.len());
}

/// A captcha mode in words.
pub open spec fn captcha_words(mode: Seq<char>) -> Seq<char> {
    if mode == "wv"@ {
        "WBV selected in Android"@
    } else if mode == "rjs"@ {
        "RJS Rust v2 with WBV Auto fallback"@
    } else {
        "AUTO: Rust v2 x2 -> WBV Auto x2 -> Rust v2 x1 -> Manual WBV"@
    }
}

/// Two captcha modes have words of their own, all others are automatic.
pub proof fn law_captcha_modes_have_words(mode: Seq<char>)
    ensures
        mode == "wv"@ <==> captcha_words(mode) == "WBV selected in Android"@,
        mode == "rjs"@ <==> captcha_words(mode) == "RJS Rust v2 with WBV Auto fallback"@,
        mode != "wv"@ && mode != "rjs"@ <==> captcha_words(mode)
            == "AUTO: Rust v2 x2 -> WBV Auto x2 -> Rust v2 x1 -> Manual WBV"@,
{
    reveal_strlit("wv");
    reveal_strlit("rjs");
    reveal_strlit("WBV selected in Android");
    reveal_strlit("RJS Rust v2 with WBV Auto fallback");
    reveal_strlit("AUTO: Rust v2 x2 -> WBV Auto x2 -> Rust v2 x1 -> Manual WBV");
    assert("wv"@.len() == 2 && "rjs"@.len() == 3);
    assert("WBV selected in Android"@[0] == 'W');
    assert("RJS Rust v2 with WBV Auto fallback"@[0] == 'R');
    assert("AUTO: Rust v2 x2 -> WBV Auto x2 -> Rust v2 x1 -> Manual WBV"@[0] == 'A');
}

/// Whether a control line is written to the log.
pub open spec fn is_logged(line: Seq<char>) -> bool {
    !contains_text(line, "error:tunnel stopped"@) && line != "FINISH_VK_CALLS"@
}

/// Every control line is logged but the one that ends calls and those that report a stopped
/// tunnel, whatever stands around the report.
pub proof fn law_control_lines_are_logged(line: Seq<char>, before: Seq<char>, after: Seq<char>)
    ensures
        !is_logged("FINISH_VK_CALLS"@),
        !is_logged(before + "error:tunnel stopped"@ + after),
        is_logged("PAUSE"@) && is_logged("RESUME"@) && is_logged("STOP"@),
        line.len() < 15 ==> is_logged(line),
{
    reveal_strlit("FINISH_VK_CALLS");
    reveal_strlit("error:tunnel stopped");
    reveal_strlit("PAUSE");
    reveal_strlit("RESUME");
    reveal_strlit("STOP");
    let p = "error:tunnel stopped"@;
    let s = before + p + after;
    assert(s.subrange(before.len() as int, (before.len() + p.len()) as int) =~= p);
    assert(occurs_at(s, p, before.len() as int));
}

} // verus!
