//! The configuration protocol between client and server.
use vstd::prelude::*;
use crate::octets::{
    be_bytes, be_nat, bytes_start_with, has_prefix, lemma_be_bytes_of_nat, lemma_be_nat_of_bytes,
    lemma_pow256, push_bytes, read_be, same_bytes,
};
use crate::text::{
    all_digits, chars_of, dec, decimal, is_digit, join, join_with, lemma_dec, lemma_split_join,
    lemma_utf8_concat, push_chars, push_text, split, starts_with, string_of, strip_text, text_is,
    text_starts_with, views,
};
use vstd::utf8::{decode_utf8, encode_utf8, valid_utf8};
use core::str::Utf8Error;

verus! {

/// Highest worker number.
pub const MAX_STREAM_WORKERS: u16 = 126;

/// The error of std's UTF-8 check.
#[verifier::external_type_specification]
#[verifier::external_body]
pub struct ExUtf8Error(Utf8Error);

/// `core::str::from_utf8` takes bytes as text if and only if they are valid UTF-8.
pub assume_specification[ core::str::from_utf8 ](v: &[u8]) -> (r: Result<&str, Utf8Error>)
    ensures
        (r is Ok) == valid_utf8(v@),
        r is Ok ==> encode_utf8(r->Ok_0@) == v@,
;

/// The server's answer to a configuration request.
#[derive(Debug, PartialEq, Eq)]
pub enum ConfigResponse {
    Config(String),
    NoConfig,
}

/// Why access was denied.
#[derive(Debug)]
pub enum DenyReason {
    ProtocolMismatch,
    WrongPassword,
    Expired,
    DeviceMismatch,
    Other(String),
}

/// Why an answer is no configuration.
#[derive(Debug)]
pub enum ConfigError {
    /// The answer is not text.
    InvalidUtf8,
    /// The server denied access; trying again is of no use.
    Denied(DenyReason),
    /// The answer is of another kind.
    Unexpected,
}

/// A request of the server about the workers of a device.
#[derive(Debug, PartialEq, Eq)]
pub struct StreamRepairCommand {
    pub sequence: u64,
    pub desired_count: u16,
    pub worker_ids: Vec<u16>,
}

/// The text of a configuration request.
pub open spec fn config_request_text(
    local_port: Seq<char>,
    device_id: Seq<char>,
    password: Seq<char>,
    generation_id: nat,
    salt: Seq<char>,
    worker_id: nat,
    desired_count: nat,
) -> Seq<char> {
    "GETCONF:"@ + join(
        seq![
            local_port,
            device_id,
            password,
            dec(generation_id),
            salt,
            dec(worker_id),
            dec(desired_count),
        ],
        seq!['|'],
    )
}

/// The request by which a worker asks for its configuration.
pub fn config_request(
    local_port: &str,
    device_id: &str,
    password: &str,
    generation_id: u64,
    salt: &str,
    worker_id: usize,
    desired_count: usize,
) -> (r: String)
    ensures
        r@ == config_request_text(
            local_port@,
            device_id@,
            password@,
            generation_id as nat,
            salt@,
            worker_id as nat,
            desired_count as nat,
        ),
{
    let mut fields: Vec<Vec<char>> = Vec::new();
    fields.push(chars_of(local_port));
    fields.push(chars_of(device_id));
    fields.push(chars_of(password));
    fields.push(decimal(generation_id));
    fields.push(chars_of(salt));
    fields.push(decimal(worker_id as u64));
    fields.push(decimal(desired_count as u64));
    proof {
        assert(views(fields@) =~= seq![
            local_port@,
            device_id@,
            password@,
            dec(generation_id as nat),
            salt@,
            dec(worker_id as nat),
            dec(desired_count as nat),
        ]);
    }
    let mut bar: Vec<char> = Vec::new();
    bar.push('|');
    proof {
        assert(bar@ =~= seq!['|']);
    }
    let body = join_with(&fields, bar.as_slice());
    let mut out = chars_of("GETCONF:");
    push_chars(&mut out, body.as_slice());
    string_of(out.as_slice())
}

/// The request by which a device gives up its session.
pub fn disconnect_request(device_id: &str, salt: &str) -> (r: String)
    ensures
        r@ == disconnect_text(device_id@, salt@),
{
    let mut out = chars_of("DISCONNECT:");
    push_text(&mut out, device_id);
    out.push('|');
    push_text(&mut out, salt);
    proof {
        assert(out@ =~= "DISCONNECT:"@ + device_id@ + seq!['|'] + salt@);
    }
    string_of(out.as_slice())
}

/// Whether `r` is what the text of an answer means.
pub open spec fn is_answer(text: Seq<char>, r: Result<ConfigResponse, ConfigError>) -> bool {
    if text == "NOCONF"@ {
        r == Ok::<ConfigResponse, ConfigError>(ConfigResponse::NoConfig)
    } else if starts_with(text, "DENIED:"@) {
        r matches Err(ConfigError::Denied(reason)) && is_reason(text.skip(7), reason)
    } else if starts_with(text, "TUNCONF:"@) {
        r matches Ok(ConfigResponse::Config(config)) && config@ == text
    } else {
        r == Err::<ConfigResponse, ConfigError>(ConfigError::Unexpected)
    }
}

/// Whether `reason` is what a denial's code means.
pub open spec fn is_reason(code: Seq<char>, reason: DenyReason) -> bool {
    if code == "protocol_mismatch"@ {
        reason is ProtocolMismatch
    } else if code == "wrong_password"@ {
        reason is WrongPassword
    } else if code == "expired"@ {
        reason is Expired
    } else if code == "device_mismatch"@ {
        reason is DeviceMismatch
    } else {
        reason matches DenyReason::Other(other) && other@ == code
    }
}

/// Reads the server's answer to a configuration request.
pub fn parse_config_response(response: &[u8]) -> (r: Result<ConfigResponse, ConfigError>)
    ensures
        !valid_utf8(response@) ==> r == Err::<ConfigResponse, ConfigError>(
            ConfigError::InvalidUtf8,
        ),
        valid_utf8(response@) ==> is_answer(decode_utf8(response@), r),
{
    let text = match core::str::from_utf8(response) {
        Ok(text) => text,
        Err(_) => {
            return Err(ConfigError::InvalidUtf8);
        },
    };
    proof {
        vstd::utf8::encode_utf8_decode_utf8(text@);
        reveal_strlit("DENIED:");
        assert("DENIED:"@.len() == 7);
    }
    let chars = chars_of(text);
    if text_is(chars.as_slice(), "NOCONF") {
        return Ok(ConfigResponse::NoConfig);
    }
    if let Some(code) = strip_text(chars.as_slice(), "DENIED:") {
        let code = code.as_slice();
        let reason = if text_is(code, "protocol_mismatch") {
            DenyReason::ProtocolMismatch
        } else if text_is(code, "wrong_password") {
            DenyReason::WrongPassword
        } else if text_is(code, "expired") {
            DenyReason::Expired
        } else if text_is(code, "device_mismatch") {
            DenyReason::DeviceMismatch
        } else {
            DenyReason::Other(string_of(code))
        };
        return Err(ConfigError::Denied(reason));
    }
    let config = chars_of("TUNCONF:");
    if text_starts_with(chars.as_slice(), config.as_slice()) {
        return Ok(ConfigResponse::Config(string_of(chars.as_slice())));
    }
    Err(ConfigError::Unexpected)
}

impl ConfigError {
    /// Whether trying again is of no use.
    pub fn is_fatal(&self) -> (r: bool)
        ensures
            r == (*self is Denied),
    {
        match self {
            ConfigError::Denied(_) => true,
            _ => false,
        }
    }

    /// The message for the user. Fatal ones begin with `FATAL_AUTH`.
    pub fn message(&self) -> (r: String)
        ensures
            config_error_words(*self, r@),
    {
        match self {
            ConfigError::InvalidUtf8 => "invalid utf-8 in GETCONF response".to_owned(),
            ConfigError::Unexpected => "unexpected GETCONF response".to_owned(),
            ConfigError::Denied(reason) => match reason {
                DenyReason::ProtocolMismatch => {
                    "FATAL_AUTH: несовместимый протокол сервера; установите сервер danusha2345/csqtt-android той же версии. Сервер amurcanov/csqtt 2.1.9 использует другой wire protocol".to_owned()
                },
                DenyReason::WrongPassword => {
                    "FATAL_AUTH: неверный пароль подключения".to_owned()
                },
                DenyReason::Expired => {
                    "FATAL_AUTH: срок действия пароля истёк".to_owned()
                },
                DenyReason::DeviceMismatch => {
                    "FATAL_AUTH: пароль привязан к другому устройству".to_owned()
                },
                DenyReason::Other(code) => {
                    let mut out = chars_of("FATAL_AUTH: доступ запрещён (");
                    push_text(&mut out, code.as_str());
                    out.push(')');
                    proof {
                        assert(out@ =~= "FATAL_AUTH: доступ запрещён ("@ + code@ + seq![')']);
                    }
                    string_of(out.as_slice())
                },
            },
        }
    }
}

/// The notice that the panel restarts the server.
pub open spec fn panel_restart_notice() -> Seq<u8> {
    seq![0xffu8] + encode_utf8("CSQTT_PANEL_RESTART_V1"@) + seq![0u8, 0x91, 0x7d, 0x03, 0xa8]
}

/// What a repair request begins with.
pub open spec fn stream_repair_prefix() -> Seq<u8> {
    seq![0xffu8] + encode_utf8("CSQTT_STREAM_REPAIR_V1"@)
}

/// What a request about living streams begins with.
pub open spec fn stream_alive_prefix() -> Seq<u8> {
    seq![0xffu8] + encode_utf8("CSQTT_STREAM_ALIVE_V1"@)
}

fn marked(text: &str) -> (r: Vec<u8>)
    ensures
        r@ == seq![0xffu8] + encode_utf8(text@),
{
    let mut r: Vec<u8> = Vec::new();
    r.push(0xff);
    push_bytes(&mut r, text.as_bytes());
    proof {
        assert(r@ =~= seq![0xffu8] + encode_utf8(text@));
    }
    r
}

/// The bytes of the notice that the panel restarts the server.
pub fn panel_restart_notice_bytes() -> (r: Vec<u8>)
    ensures
        r@ == panel_restart_notice(),
{
    let mut r = marked("CSQTT_PANEL_RESTART_V1");
    let ghost before = r@;
    r.push(0);
    r.push(0x91);
    r.push(0x7d);
    r.push(0x03);
    r.push(0xa8);
    proof {
        assert(r@ =~= before + seq![0u8, 0x91, 0x7d, 0x03, 0xa8]);
    }
    r
}

/// What a repair request begins with.
pub fn stream_repair_prefix_bytes() -> (r: Vec<u8>)
    ensures
        r@ == stream_repair_prefix(),
{
    marked("CSQTT_STREAM_REPAIR_V1")
}

/// What a request about living streams begins with.
pub fn stream_alive_prefix_bytes() -> (r: Vec<u8>)
    ensures
        r@ == stream_alive_prefix(),
{
    marked("CSQTT_STREAM_ALIVE_V1")
}

/// Whether a packet answers a configuration request.
pub open spec fn answers_config(response: Seq<u8>) -> bool {
    has_prefix(response, encode_utf8("TUNCONF:"@)) || has_prefix(response, encode_utf8("NOCONF"@))
        || has_prefix(response, encode_utf8("DENIED:"@))
}

/// Whether a packet belongs to the protocol rather than to the tunnel.
pub open spec fn is_control(response: Seq<u8>) -> bool {
    response == panel_restart_notice() || answers_config(response) || has_prefix(
        response,
        encode_utf8("READY_OK"@),
    ) || has_prefix(response, encode_utf8("OK:disconnected"@)) || has_prefix(
        response,
        stream_repair_prefix(),
    ) || has_prefix(response, stream_alive_prefix())
}

/// Whether a packet answers a configuration request.
pub fn is_config_response(response: &[u8]) -> (r: bool)
    ensures
        r == answers_config(response@),
{
    bytes_start_with(response, "TUNCONF:".as_bytes()) || bytes_start_with(
        response,
        "NOCONF".as_bytes(),
    ) || bytes_start_with(response, "DENIED:".as_bytes())
}

/// Whether a packet belongs to the protocol rather than to the tunnel.
pub fn is_control_response(response: &[u8]) -> (r: bool)
    ensures
        r == is_control(response@),
{
    if is_panel_restart_notice(response) || is_config_response(response) {
        return true;
    }
    if bytes_start_with(response, "READY_OK".as_bytes()) || bytes_start_with(
        response,
        "OK:disconnected".as_bytes(),
    ) {
        return true;
    }
    let repair = stream_repair_prefix_bytes();
    let alive = stream_alive_prefix_bytes();
    bytes_start_with(response, repair.as_slice()) || bytes_start_with(response, alive.as_slice())
}

/// Whether a packet is the notice that the panel restarts the server.
pub fn is_panel_restart_notice(response: &[u8]) -> (r: bool)
    ensures
        r == (response@ == panel_restart_notice()),
{
    let notice = panel_restart_notice_bytes();
    same_bytes(response, notice.as_slice())
}

/// Every answer to a configuration request belongs to the protocol.
pub proof fn law_config_responses_are_control(response: Seq<u8>)
    requires
        answers_config(response),
    ensures
        is_control(response),
{
}

/// What parses as a configuration, as the absence of one or as a denial is recognised as
/// an answer, so it never reaches the tunnel.
pub proof fn law_parsed_answers_are_recognised(text: Seq<char>)
    requires
        text == "NOCONF"@ || starts_with(text, "DENIED:"@) || starts_with(text, "TUNCONF:"@),
    ensures
        answers_config(encode_utf8(text)),
{
    if text == "NOCONF"@ {
        let b = encode_utf8(text);
        assert(b.take(b.len() as int) =~= b);
    } else if starts_with(text, "DENIED:"@) {
        lemma_prefix_bytes(text, "DENIED:"@);
    } else {
        lemma_prefix_bytes(text, "TUNCONF:"@);
    }
}

proof fn lemma_prefix_bytes(text: Seq<char>, p: Seq<char>)
    requires
        starts_with(text, p),
    ensures
        has_prefix(encode_utf8(text), encode_utf8(p)),
{
    let rest = text.skip(p.len() as int);
    assert(text =~= p + rest);
    lemma_utf8_concat(p, rest);
    assert(encode_utf8(text).take(encode_utf8(p).len() as int) =~= encode_utf8(p));
}

// ---------------------------------------------------------------------------
// Stream commands
// ---------------------------------------------------------------------------

/// Worker numbers as pairs of bytes.
pub open spec fn ids_bytes(ids: Seq<u16>) -> Seq<u8>
    decreases ids.len(),
{
    if ids.len() == 0 {
        Seq::empty()
    } else {
        ids_bytes(ids.drop_last()) + be_bytes(ids.last() as nat, 2)
    }
}

/// The wire form of a stream command: sequence number, wanted count, and the numbers of
/// the workers concerned, counted by one byte.
pub open spec fn command_bytes(
    prefix: Seq<u8>,
    sequence: u64,
    desired_count: u16,
    ids: Seq<u16>,
) -> Seq<u8> {
    prefix + be_bytes(sequence as nat, 8) + be_bytes(desired_count as nat, 2) + seq![
        ids.len() as u8,
    ] + ids_bytes(ids)
}

/// A command that can be followed: a sequence number, a wanted count within the limit,
/// and at least one worker, each within the wanted count.
pub open spec fn command_valid(sequence: u64, desired_count: u16, ids: Seq<u16>) -> bool {
    &&& sequence != 0
    &&& 1 <= desired_count <= MAX_STREAM_WORKERS
    &&& 1 <= ids.len() <= 255
    &&& forall|i: int| 0 <= i < ids.len() ==> 1 <= #[trigger] ids[i] <= desired_count
}

proof fn lemma_ids_bytes(ids: Seq<u16>)
    ensures
        ids_bytes(ids).len() == 2 * ids.len(),
        forall|i: int|
            0 <= i < ids.len() ==> be_nat(ids_bytes(ids).subrange(2 * i, 2 * i + 2))
                == #[trigger] ids[i],
    decreases ids.len(),
{
    lemma_pow256();
    if ids.len() > 0 {
        let d = ids.drop_last();
        lemma_ids_bytes(d);
        lemma_be_nat_of_bytes(ids.last() as nat, 2);
        let b = ids_bytes(ids);
        let p = ids_bytes(d);
        assert forall|i: int| 0 <= i < ids.len() implies be_nat(b.subrange(2 * i, 2 * i + 2))
            == #[trigger] ids[i] by {
            if i < d.len() {
                assert(b.subrange(2 * i, 2 * i + 2) =~= p.subrange(2 * i, 2 * i + 2));
                assert(d[i] == ids[i]);
            } else {
                assert(b.subrange(2 * i, 2 * i + 2) =~= be_bytes(ids.last() as nat, 2));
            }
        }
    }
}

/// The parts of a stream command can be read off its wire form.
pub proof fn law_stream_command_round_trip(
    prefix: Seq<u8>,
    sequence: u64,
    desired_count: u16,
    ids: Seq<u16>,
)
    requires
        ids.len() <= 255,
    ensures
        ({
            let p = prefix.len() as int;
            let b = command_bytes(prefix, sequence, desired_count, ids);
            &&& has_prefix(b, prefix)
            &&& b.len() == p + 11 + 2 * ids.len()
            &&& be_nat(b.subrange(p, p + 8)) == sequence
            &&& be_nat(b.subrange(p + 8, p + 10)) == desired_count
            &&& b[p + 10] == ids.len()
            &&& forall|i: int|
                0 <= i < ids.len() ==> be_nat(b.subrange(p + 11 + 2 * i, p + 13 + 2 * i))
                    == #[trigger] ids[i]
        }),
{
    let p = prefix.len() as int;
    let b = command_bytes(prefix, sequence, desired_count, ids);
    lemma_pow256();
    lemma_be_nat_of_bytes(sequence as nat, 8);
    lemma_be_nat_of_bytes(desired_count as nat, 2);
    lemma_ids_bytes(ids);
    assert(b.take(p) =~= prefix);
    assert(b.subrange(p, p + 8) =~= be_bytes(sequence as nat, 8));
    assert(b.subrange(p + 8, p + 10) =~= be_bytes(desired_count as nat, 2));
    assert forall|i: int| 0 <= i < ids.len() implies be_nat(
        b.subrange(p + 11 + 2 * i, p + 13 + 2 * i),
    ) == #[trigger] ids[i] by {
        assert(b.subrange(p + 11 + 2 * i, p + 13 + 2 * i) =~= ids_bytes(ids).subrange(
            2 * i,
            2 * i + 2,
        ));
    }
}

/// Reads a stream command with a given prefix.
fn parse_stream_command(payload: &[u8], prefix: &[u8]) -> (r: Option<StreamRepairCommand>)
    ensures
        match r {
            Some(c) => command_valid(c.sequence, c.desired_count, c.worker_ids@) && payload@
                == command_bytes(prefix@, c.sequence, c.desired_count, c.worker_ids@),
            None => forall|sequence: u64, desired_count: u16, ids: Seq<u16>|
                command_valid(sequence, desired_count, ids) ==> payload@
                    != #[trigger] command_bytes(prefix@, sequence, desired_count, ids),
        },
{
    proof {
        assert forall|sequence: u64, desired_count: u16, ids: Seq<u16>|
            command_valid(sequence, desired_count, ids) && payload@ == #[trigger] command_bytes(
                prefix@,
                sequence,
                desired_count,
                ids,
            ) implies {
            let p = prefix@.len() as int;
            &&& has_prefix(payload@, prefix@)
            &&& payload@.len() == p + 11 + 2 * ids.len()
            &&& be_nat(payload@.subrange(p, p + 8)) == sequence
            &&& be_nat(payload@.subrange(p + 8, p + 10)) == desired_count
            &&& payload@[p + 10] == ids.len()
            &&& forall|i: int|
                0 <= i < ids.len() ==> be_nat(payload@.subrange(p + 11 + 2 * i, p + 13 + 2 * i))
                    == #[trigger] ids[i]
        } by {
            law_stream_command_round_trip(prefix@, sequence, desired_count, ids);
        }
    }
    if !bytes_start_with(payload, prefix) {
        return None;
    }
    let p: usize = prefix.len();
    let n: usize = payload.len();
    if n - p < 11 {
        return None;
    }
    let sequence: u64 = read_be(payload, p, p + 8);
    let desired: u64 = read_be(payload, p + 8, p + 10);
    let count: usize = payload[p + 10] as usize;
    proof {
        lemma_pow256();
        lemma_be_bytes_of_nat(payload@.subrange(p + 8, p + 10));
    }
    let desired_count: u16 = desired as u16;
    if sequence == 0 || desired_count == 0 || desired_count > MAX_STREAM_WORKERS || n - p - 11
        != count * 2 || count == 0 {
        return None;
    }
    let mut worker_ids: Vec<u16> = Vec::new();
    let mut i: usize = 0;
    proof {
        assert(ids_bytes(worker_ids@) =~= payload@.subrange(p + 11, p + 11 + 2 * i));
    }
    while i < count
        invariant
            i <= count <= 255,
            p == prefix@.len(),
            n == payload@.len(),
            n == p + 11 + count * 2,
            count == payload@[p + 10],
            has_prefix(payload@, prefix@),
            sequence == be_nat(payload@.subrange(p as int, p + 8)),
            desired_count == be_nat(payload@.subrange(p + 8, p + 10)),
            worker_ids@.len() == i,
            forall|k: int| 0 <= k < i ==> 1 <= #[trigger] worker_ids@[k] <= desired_count,
            ids_bytes(worker_ids@) == payload@.subrange(p + 11, p + 11 + 2 * i),
            forall|s: u64, d: u16, ids: Seq<u16>|
                command_valid(s, d, ids) && payload@ == #[trigger] command_bytes(
                    prefix@,
                    s,
                    d,
                    ids,
                ) ==> d == desired_count && ids.len() == count && forall|k: int|
                    0 <= k < ids.len() ==> be_nat(
                        payload@.subrange(p + 11 + 2 * k, p + 13 + 2 * k),
                    ) == #[trigger] ids[k],
        decreases count - i,
    {
        let at: usize = p + 11 + 2 * i;
        let raw: u64 = read_be(payload, at, at + 2);
        let ghost pair = payload@.subrange(at as int, at + 2);
        proof {
            lemma_pow256();
            lemma_be_bytes_of_nat(pair);
        }
        let id: u16 = raw as u16;
        if id == 0 || id > desired_count {
            proof {
                assert forall|s: u64, d: u16, ids: Seq<u16>|
                    command_valid(s, d, ids) implies payload@ != #[trigger] command_bytes(
                    prefix@,
                    s,
                    d,
                    ids,
                ) by {
                    if payload@ == command_bytes(prefix@, s, d, ids) {
                        assert(ids[i as int] == id);
                    }
                }
            }
            return None;
        }
        let ghost before = worker_ids@;
        worker_ids.push(id);
        proof {
            assert(worker_ids@.drop_last() =~= before);
            assert(be_bytes(id as nat, 2) == pair);
            assert(payload@.subrange(p + 11, p + 11 + 2 * (i + 1)) =~= payload@.subrange(
                p + 11,
                p + 11 + 2 * i,
            ) + pair);
        }
        i = i + 1;
    }
    proof {
        let head = payload@.subrange(p as int, p + 8);
        let mid = payload@.subrange(p + 8, p + 10);
        lemma_be_bytes_of_nat(head);
        lemma_be_bytes_of_nat(mid);
        let b = command_bytes(prefix@, sequence, desired_count, worker_ids@);
        assert(payload@.take(p as int) == prefix@);
        assert forall|k: int| 0 <= k < payload@.len() implies payload@[k] == b[k] by {
            if k < p {
                assert(payload@.take(p as int)[k] == payload@[k]);
            } else if k < p + 8 {
                assert(head[k - p] == payload@[k]);
            } else if k < p + 10 {
                assert(mid[k - p - 8] == payload@[k]);
            } else if k > p + 10 {
                assert(ids_bytes(worker_ids@)[k - p - 11] == payload@[k]);
            }
        }
        assert(b =~= payload@);
    }
    Some(StreamRepairCommand { sequence, desired_count, worker_ids })
}

/// Reads a repair request.
pub fn parse_stream_repair(payload: &[u8]) -> (r: Option<StreamRepairCommand>)
    ensures
        match r {
            Some(c) => command_valid(c.sequence, c.desired_count, c.worker_ids@) && payload@
                == command_bytes(
                stream_repair_prefix(),
                c.sequence,
                c.desired_count,
                c.worker_ids@,
            ),
            None => forall|sequence: u64, desired_count: u16, ids: Seq<u16>|
                command_valid(sequence, desired_count, ids) ==> payload@
                    != #[trigger] command_bytes(
                    stream_repair_prefix(),
                    sequence,
                    desired_count,
                    ids,
                ),
        },
{
    let prefix = stream_repair_prefix_bytes();
    proof {
        reveal_strlit("CSQTT_STREAM_REPAIR_V1");
        lemma_ascii_len("CSQTT_STREAM_REPAIR_V1"@);
    }
    parse_stream_command(payload, prefix.as_slice())
}

/// Reads a request about living streams.
pub fn parse_stream_alive(payload: &[u8]) -> (r: Option<StreamRepairCommand>)
    ensures
        match r {
            Some(c) => command_valid(c.sequence, c.desired_count, c.worker_ids@) && payload@
                == command_bytes(
                stream_alive_prefix(),
                c.sequence,
                c.desired_count,
                c.worker_ids@,
            ),
            None => forall|sequence: u64, desired_count: u16, ids: Seq<u16>|
                command_valid(sequence, desired_count, ids) ==> payload@
                    != #[trigger] command_bytes(
                    stream_alive_prefix(),
                    sequence,
                    desired_count,
                    ids,
                ),
        },
{
    let prefix = stream_alive_prefix_bytes();
    proof {
        reveal_strlit("CSQTT_STREAM_ALIVE_V1");
        lemma_ascii_len("CSQTT_STREAM_ALIVE_V1"@);
    }
    parse_stream_command(payload, prefix.as_slice())
}

proof fn lemma_ascii_len(s: Seq<char>)
    requires
        vstd::utf8::is_ascii_chars(s),
    ensures
        encode_utf8(s).len() == s.len(),
{
    vstd::utf8::is_ascii_chars_encode_utf8(s);
}

/// A request for the configuration can be taken apart again: behind its name stand the
/// local port, the device, the password, the generation, the salt, the worker's number and
/// the number of workers wanted, in that order, wherever none of the texts holds the
/// separator.
pub proof fn law_config_request_fields(
    local_port: Seq<char>,
    device_id: Seq<char>,
    password: Seq<char>,
    generation_id: nat,
    salt: Seq<char>,
    worker_id: nat,
    desired_count: nat,
)
    requires
        !local_port.contains('|'),
        !device_id.contains('|'),
        !password.contains('|'),
        !salt.contains('|'),
    ensures
        ({
            let text = config_request_text(
                local_port,
                device_id,
                password,
                generation_id,
                salt,
                worker_id,
                desired_count,
            );
            let fields = split(text.skip("GETCONF:"@.len() as int), '|');
            &&& starts_with(text, "GETCONF:"@)
            &&& fields.len() == 7
            &&& fields[0] == local_port
            &&& fields[1] == device_id
            &&& fields[2] == password
            &&& fields[3] == dec(generation_id)
            &&& fields[4] == salt
            &&& fields[5] == dec(worker_id)
            &&& fields[6] == dec(desired_count)
        }),
{
    let text = config_request_text(
        local_port,
        device_id,
        password,
        generation_id,
        salt,
        worker_id,
        desired_count,
    );
    let parts = seq![
        local_port,
        device_id,
        password,
        dec(generation_id),
        salt,
        dec(worker_id),
        dec(desired_count),
    ];
    let n = "GETCONF:"@.len() as int;
    lemma_dec(generation_id);
    lemma_dec(worker_id);
    lemma_dec(desired_count);
    assert forall|i: int| 0 <= i < parts.len() implies !(#[trigger] parts[i]).contains('|') by {
        if i == 3 || i == 5 || i == 6 {
            assert(all_digits(parts[i]));
            assert(!is_digit('|'));
        }
    }
    lemma_split_join(parts, '|');
    assert(text.take(n) =~= "GETCONF:"@);
    assert(text.skip(n) =~= join(parts, seq!['|']));
}

/// A refusal names its reason: the four codes that the client knows, and any other as it
/// came. A configuration is handed on whole, and what is none of these is unexpected.
pub proof fn law_answers_are_told_apart(
    text: Seq<char>,
    code: Seq<char>,
    r: Result<ConfigResponse, ConfigError>,
)
    requires
        is_answer(text, r),
    ensures
        text == "DENIED:"@ + "protocol_mismatch"@ ==> r matches Err(
            ConfigError::Denied(DenyReason::ProtocolMismatch),
        ),
        text == "DENIED:"@ + "wrong_password"@ ==> r matches Err(
            ConfigError::Denied(DenyReason::WrongPassword),
        ),
        text == "DENIED:"@ + "expired"@ ==> r matches Err(ConfigError::Denied(DenyReason::Expired)),
        text == "DENIED:"@ + "device_mismatch"@ ==> r matches Err(
            ConfigError::Denied(DenyReason::DeviceMismatch),
        ),
        text == "DENIED:"@ + code && code != "protocol_mismatch"@ && code != "wrong_password"@
            && code != "expired"@ && code != "device_mismatch"@ ==> (r matches Err(
            ConfigError::Denied(DenyReason::Other(other)),
        ) && other@ == code),
        text == "TUNCONF:"@ + code ==> (r matches Ok(ConfigResponse::Config(config)) && config@
            == text),
        text == "NOCONF"@ ==> r matches Ok(ConfigResponse::NoConfig),
        r matches Ok(ConfigResponse::Config(_)) ==> starts_with(text, "TUNCONF:"@),
        r matches Err(ConfigError::Denied(_)) ==> starts_with(text, "DENIED:"@),
        r matches Ok(ConfigResponse::NoConfig) ==> text == "NOCONF"@,
        !(r matches Err(ConfigError::InvalidUtf8)),
{
    reveal_strlit("DENIED:");
    reveal_strlit("TUNCONF:");
    reveal_strlit("NOCONF");
    reveal_strlit("protocol_mismatch");
    reveal_strlit("wrong_password");
    reveal_strlit("expired");
    reveal_strlit("device_mismatch");
    assert("protocol_mismatch"@.len() == 17);
    assert("wrong_password"@.len() == 14);
    assert("expired"@.len() == 7);
    assert("device_mismatch"@.len() == 15);
    let d = "DENIED:"@;
    let t = "TUNCONF:"@;
    assert(d[0] == 'D' && t[0] == 'T' && "NOCONF"@[0] == 'N');
    lemma_prefix_of_sum(d, "protocol_mismatch"@);
    lemma_prefix_of_sum(d, "wrong_password"@);
    lemma_prefix_of_sum(d, "expired"@);
    lemma_prefix_of_sum(d, "device_mismatch"@);
    lemma_prefix_of_sum(d, code);
    lemma_prefix_of_sum(t, code);
    assert(starts_with(text, d) ==> text[0] == 'D') by {
        if starts_with(text, d) {
            assert(text.take(7)[0] == text[0]);
        }
    }
}

proof fn lemma_prefix_of_sum(p: Seq<char>, s: Seq<char>)
    ensures
        starts_with(p + s, p),
        (p + s).skip(p.len() as int) == s,
{
    assert((p + s).take(p.len() as int) =~= p);
    assert((p + s).skip(p.len() as int) =~= s);
}

/// Control answers are exactly those: the notice of a restarted panel, an answer to a
/// request for the configuration, the answers to a ready worker and to a disconnect, and
/// the two stream commands.
pub proof fn law_control_answers(rest: Seq<u8>, response: Seq<u8>)
    ensures
        is_control(seq![0xffu8] + encode_utf8("CSQTT_PANEL_RESTART_V1"@) + seq![
            0u8,
            0x91,
            0x7d,
            0x03,
            0xa8,
        ]),
        is_control(encode_utf8("READY_OK"@) + rest),
        is_control(encode_utf8("OK:disconnected"@) + rest),
        is_control(seq![0xffu8] + encode_utf8("CSQTT_STREAM_REPAIR_V1"@) + rest),
        is_control(seq![0xffu8] + encode_utf8("CSQTT_STREAM_ALIVE_V1"@) + rest),
        answers_config(encode_utf8("TUNCONF:"@) + rest),
        answers_config(encode_utf8("NOCONF"@) + rest),
        answers_config(encode_utf8("DENIED:"@) + rest),
        answers_config(response) ==> is_control(response),
        is_control(response) && !answers_config(response) ==> has_prefix(
            response,
            seq![0xffu8],
        ) || has_prefix(response, encode_utf8("READY_OK"@)) || has_prefix(
            response,
            encode_utf8("OK:disconnected"@),
        ),
{
    lemma_prefix_of_bytes(encode_utf8("READY_OK"@), rest);
    lemma_prefix_of_bytes(encode_utf8("OK:disconnected"@), rest);
    lemma_prefix_of_bytes(seq![0xffu8] + encode_utf8("CSQTT_STREAM_REPAIR_V1"@), rest);
    lemma_prefix_of_bytes(seq![0xffu8] + encode_utf8("CSQTT_STREAM_ALIVE_V1"@), rest);
    lemma_prefix_of_bytes(encode_utf8("TUNCONF:"@), rest);
    lemma_prefix_of_bytes(encode_utf8("NOCONF"@), rest);
    lemma_prefix_of_bytes(encode_utf8("DENIED:"@), rest);
    if response == panel_restart_notice() {
        assert(response.take(1) =~= seq![0xffu8]);
    }
    if has_prefix(response, stream_repair_prefix()) {
        assert(response[0] == response.take(stream_repair_prefix().len() as int)[0]);
        assert(response.take(1) =~= seq![0xffu8]);
    }
    if has_prefix(response, stream_alive_prefix()) {
        assert(response[0] == response.take(stream_alive_prefix().len() as int)[0]);
        assert(response.take(1) =~= seq![0xffu8]);
    }
}

proof fn lemma_prefix_of_bytes(p: Seq<u8>, s: Seq<u8>)
    ensures
        has_prefix(p + s, p),
{
    assert((p + s).take(p.len() as int) =~= p);
}

/// A stream command asks for at most 126 workers and names only workers among them.
pub proof fn law_stream_commands_name_wanted_workers(
    sequence: u64,
    desired_count: u16,
    ids: Seq<u16>,
)
    ensures
        command_valid(sequence, desired_count, ids) <==> sequence > 0 && 0 < desired_count < 127
            && 0 < ids.len() < 256 && forall|i: int|
            0 <= i < ids.len() ==> 0 < #[trigger] ids[i] < desired_count + 1,
{
}

/// The text by which a device gives up its session.
pub open spec fn disconnect_text(device_id: Seq<char>, salt: Seq<char>) -> Seq<char> {
    "DISCONNECT:"@ + device_id + seq!['|'] + salt
}

/// Whether a text is what the user is told of an error.
pub open spec fn config_error_words(e: ConfigError, text: Seq<char>) -> bool {
    &&& e is InvalidUtf8 ==> text == "invalid utf-8 in GETCONF response"@
    &&& e is Unexpected ==> text == "unexpected GETCONF response"@
    &&& e matches ConfigError::Denied(DenyReason::ProtocolMismatch) ==> text
        == "FATAL_AUTH: несовместимый протокол сервера; установите сервер danusha2345/csqtt-android той же версии. Сервер amurcanov/csqtt 2.1.9 использует другой wire protocol"@
    &&& e matches ConfigError::Denied(DenyReason::WrongPassword) ==> text
        == "FATAL_AUTH: неверный пароль подключения"@
    &&& e matches ConfigError::Denied(DenyReason::Expired) ==> text
        == "FATAL_AUTH: срок действия пароля истёк"@
    &&& e matches ConfigError::Denied(DenyReason::DeviceMismatch) ==> text
        == "FATAL_AUTH: пароль привязан к другому устройству"@
    &&& e matches ConfigError::Denied(DenyReason::Other(code)) ==> text
        == "FATAL_AUTH: доступ запрещён ("@ + code@ + seq![')']
}

/// Giving up a session names the device first and then, behind a bar, the salt.
pub proof fn law_disconnect_names_the_device(device_id: Seq<char>, salt: Seq<char>)
    ensures
        disconnect_text(device_id, salt).len() == 12 + device_id.len() + salt.len(),
        disconnect_text(device_id, salt).take(11) == "DISCONNECT:"@,
        disconnect_text(device_id, salt).subrange(11, 11 + device_id.len() as int) == device_id,
        disconnect_text(device_id, salt)[11 + device_id.len() as int] == '|',
        disconnect_text(device_id, salt).skip(12 + device_id.len() as int) == salt,
{
    reveal_strlit("DISCONNECT:");
    let t = disconnect_text(device_id, salt);
    assert(t.take(11) =~= "DISCONNECT:"@);
    assert(t.subrange(11, 11 + device_id.len() as int) =~= device_id);
    assert(t.skip(12 + device_id.len() as int) =~= salt);
}

/// What the user is told begins with `FATAL_AUTH: ` exactly where the server denied access,
/// and names the reason.
pub proof fn law_fatal_errors_are_marked(e: ConfigError, text: Seq<char>)
    requires
        config_error_words(e, text),
    ensures
        e is Denied <==> text.len() >= 12 && text.take(12) == "FATAL_AUTH: "@,
        e == ConfigError::Denied(DenyReason::WrongPassword) ==> text.skip(12)
            == "неверный пароль подключения"@,
        e == ConfigError::Denied(DenyReason::Expired) ==> text.skip(12)
            == "срок действия пароля истёк"@,
        e == ConfigError::Denied(DenyReason::DeviceMismatch) ==> text.skip(12)
            == "пароль привязан к другому устройству"@,
        e == ConfigError::Denied(DenyReason::ProtocolMismatch) ==> text.skip(12).take(21)
            == "несовместимый протоко"@,
        (e matches ConfigError::Denied(DenyReason::Other(code)) ==> text.skip(12)
            == "доступ запрещён ("@ + code@ + seq![')']),
        e is InvalidUtf8 ==> text == "invalid utf-8 in GETCONF response"@,
        e is Unexpected ==> text == "unexpected GETCONF response"@,
{
    reveal_strlit("FATAL_AUTH: ");
    reveal_strlit("invalid utf-8 in GETCONF response");
    reveal_strlit("unexpected GETCONF response");
    reveal_strlit("FATAL_AUTH: несовместимый протокол сервера; установите сервер danusha2345/csqtt-android той же версии. Сервер amurcanov/csqtt 2.1.9 использует другой wire protocol");
    reveal_strlit("FATAL_AUTH: неверный пароль подключения");
    reveal_strlit("FATAL_AUTH: срок действия пароля истёк");
    reveal_strlit("FATAL_AUTH: пароль привязан к другому устройству");
    reveal_strlit("FATAL_AUTH: доступ запрещён (");
    reveal_strlit("неверный пароль подключения");
    reveal_strlit("срок действия пароля истёк");
    reveal_strlit("пароль привязан к другому устройству");
    reveal_strlit("несовместимый протоко");
    reveal_strlit("доступ запрещён (");
    if let ConfigError::Denied(reason) = e {
        assert(text.take(12) =~= "FATAL_AUTH: "@);
        match reason {
            DenyReason::WrongPassword => {
                assert(text.skip(12) =~= "неверный пароль подключения"@);
            },
            DenyReason::Expired => {
                assert(text.skip(12) =~= "срок действия пароля истёк"@);
            },
            DenyReason::DeviceMismatch => {
                assert(text.skip(12) =~= "пароль привязан к другому устройству"@);
            },
            DenyReason::ProtocolMismatch => {
                assert(text.skip(12).take(21) =~= "несовместимый протоко"@);
            },
            DenyReason::Other(code) => {
                assert(text.skip(12) =~= "доступ запрещён ("@ + code@ + seq![')']);
            },
        }
    } else {
        assert(text[0] == 'i' || text[0] == 'u');
        if text.len() >= 12 {
            assert(text.take(12)[0] == text[0]);
        }
    }
}

} // verus!
