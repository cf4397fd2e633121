//! Streams that clients open to the outside through the server.
use vstd::prelude::*;
use crate::addr::{Endpoint, IpAddress, Ipv4, Ipv6, law_mapped_addresses};
use crate::octets::{
    be_bytes, be_nat, lemma_be_bytes_len, lemma_be_bytes_of_nat, lemma_be_nat_of_bytes,
    lemma_pow256, read_be,
};
use crate::frame::{
    CLOSE, DATA, Frame, MAX_DATA, OPEN, OPEN_ERR, OPEN_OK, encode_frame_of, frame_bytes,
    frame_shaped, is_frame_of, law_frame_round_trip, parse_frame_of,
};
use crate::server::socks::{
    law_socks_address_unique, lemma_socks_address_len, read_ipv4_endpoint, read_ipv6_endpoint,
    socks_address,
};
use crate::shard_map::{map_entries, map_get, map_insert, map_len, map_list, map_new, map_remove};
use crate::text::{chars_of, has_control, text_has_control};
use vstd::utf8::{decode_utf8, encode_utf8, valid_utf8};
use vstd::slice::slice_subrange;
use dashmap::DashMap;

verus! {

/// Most streams of all sessions.
pub const MAX_GLOBAL_STREAMS: usize = 256;

/// Most streams of one session.
pub const MAX_SESSION_STREAMS: usize = 32;

/// What is handed to a running stream.
#[derive(Debug)]
pub enum StreamInput {
    Data(Vec<u8>),
    Close,
}

/// The first bytes of every frame: `CSQPX1`.
pub open spec fn magic() -> Seq<u8> {
    seq![0x43u8, 0x53, 0x51, 0x50, 0x58, 0x31]
}

fn magic_bytes() -> (r: [u8; 6])
    ensures
        r@ == magic(),
{
    let r: [u8; 6] = [0x43, 0x53, 0x51, 0x50, 0x58, 0x31];
    proof {
        assert(r@ =~= magic());
    }
    r
}

/// Whether a packet is a proxy frame.
pub fn is_frame(payload: &[u8]) -> (r: bool)
    ensures
        r == frame_shaped(magic(), payload@),
{
    is_frame_of(&magic_bytes(), payload)
}

/// Takes a frame apart.
pub fn parse_frame(payload: &[u8]) -> (r: Option<Frame>)
    ensures
        match r {
            Some(frame) => frame_shaped(magic(), payload@) && payload@ == frame_bytes(
                magic(),
                frame.kind,
                frame.stream_id,
                frame.payload@,
            ),
            None => !frame_shaped(magic(), payload@),
        },
{
    parse_frame_of(&magic_bytes(), payload)
}

/// Puts a frame together.
pub fn encode_frame(kind: u8, stream_id: u64, payload: &[u8]) -> (r: Vec<u8>)
    ensures
        r@ == frame_bytes(magic(), kind, stream_id, payload@),
{
    encode_frame_of(&magic_bytes(), kind, stream_id, payload)
}

/// A frame with one byte of payload.
fn code_frame(kind: u8, stream_id: u64, code: u8) -> (r: Vec<u8>)
    ensures
        r@ == frame_bytes(magic(), kind, stream_id, seq![code]),
{
    let payload: [u8; 1] = [code];
    proof {
        assert(payload@ =~= seq![code]);
    }
    encode_frame(kind, stream_id, payload.as_slice())
}

/// A frame without payload.
fn bare_frame(kind: u8, stream_id: u64) -> (r: Vec<u8>)
    ensures
        r@ == frame_bytes(magic(), kind, stream_id, Seq::empty()),
{
    let payload: Vec<u8> = Vec::new();
    proof {
        assert(payload@ =~= Seq::<u8>::empty());
    }
    encode_frame(kind, stream_id, payload.as_slice())
}

// ---------------------------------------------------------------------------
// Targets
// ---------------------------------------------------------------------------

/// Where a stream leads.
#[derive(Debug)]
pub enum Target {
    Address(Endpoint),
    Domain(String, u16),
}

/// A target with its text as a sequence.
pub ghost enum TargetView {
    Address(Endpoint),
    Domain(Seq<char>, u16),
}

impl Target {
    /// The target with its text as a sequence.
    pub open spec fn view(self) -> TargetView {
        match self {
            Target::Address(e) => TargetView::Address(e),
            Target::Domain(host, port) => TargetView::Domain(host@, port),
        }
    }
}

/// Why a target was refused.
#[derive(Clone, Copy, Debug, PartialEq, Eq, Structural)]
pub enum TargetError {
    /// There is no address type.
    Missing,
    /// The address type is unknown or does not go with the length.
    Unsupported,
    /// The length of the domain name is wrong, or it holds a control character.
    InvalidDomain,
    /// The domain name is not text.
    NotText,
    /// The port is zero.
    ZeroPort,
}

/// The wire form of a target.
pub open spec fn target_bytes(t: TargetView) -> Seq<u8> {
    match t {
        TargetView::Address(e) => socks_address(e),
        TargetView::Domain(host, port) => seq![3u8, encode_utf8(host).len() as u8] + encode_utf8(
            host,
        ) + be_bytes(port as nat, 2),
    }
}

/// A target that can be connected to.
pub open spec fn target_valid(t: TargetView) -> bool {
    match t {
        TargetView::Address(e) => e.port != 0,
        TargetView::Domain(host, port) => port != 0 && 1 <= encode_utf8(host).len() <= 255
            && !has_control(host),
    }
}

/// The error of a payload that is no valid target.
pub open spec fn target_error(p: Seq<u8>) -> TargetError {
    let n = p.len();
    if n == 0 {
        TargetError::Missing
    } else if (p[0] == 1 && n == 7) || (p[0] == 4 && n == 19) {
        TargetError::ZeroPort
    } else if p[0] == 3 && n >= 2 {
        let len = p[1] as int;
        if len == 0 || n != len + 4 {
            TargetError::InvalidDomain
        } else if !valid_utf8(p.subrange(2, 2 + len)) {
            TargetError::NotText
        } else if has_control(decode_utf8(p.subrange(2, 2 + len))) {
            TargetError::InvalidDomain
        } else {
            TargetError::ZeroPort
        }
    } else {
        TargetError::Unsupported
    }
}

/// Different targets have different wire forms.
pub proof fn law_target_bytes_unique(a: TargetView, b: TargetView)
    requires
        target_valid(a),
        target_valid(b),
        target_bytes(a) == target_bytes(b),
    ensures
        a == b,
{
    lemma_pow256();
    let x = target_bytes(a);
    match (a, b) {
        (TargetView::Address(e), TargetView::Address(f)) => {
            law_socks_address_unique(e, f);
        },
        (TargetView::Domain(h, p), TargetView::Domain(k, q)) => {
            let hb = encode_utf8(h);
            let kb = encode_utf8(k);
            lemma_be_nat_of_bytes(p as nat, 2);
            lemma_be_nat_of_bytes(q as nat, 2);
            assert(x[1] == hb.len() as u8);
            assert(target_bytes(b)[1] == kb.len() as u8);
            let n = hb.len() as int;
            assert(x.subrange(2, 2 + n) =~= hb);
            assert(target_bytes(b).subrange(2, 2 + n) =~= kb);
            assert(x.subrange(2 + n, 4 + n) =~= be_bytes(p as nat, 2));
            assert(target_bytes(b).subrange(2 + n, 4 + n) =~= be_bytes(q as nat, 2));
            vstd::utf8::encode_utf8_decode_utf8(h);
            vstd::utf8::encode_utf8_decode_utf8(k);
        },
        (TargetView::Address(e), TargetView::Domain(_, _)) => {
            assert(x[0] != 3);
            assert(target_bytes(b)[0] == 3);
        },
        (TargetView::Domain(_, _), TargetView::Address(e)) => {
            assert(x[0] == 3);
            assert(target_bytes(b)[0] != 3);
        },
    }
}

/// What a valid target's wire form looks like.
proof fn lemma_target_shape(t: TargetView)
    requires
        target_valid(t),
    ensures
        ({
            let p = target_bytes(t);
            match t {
                TargetView::Address(e) => match e.ip {
                    IpAddress::V4(_) => p[0] == 1 && p.len() == 7,
                    IpAddress::V6(_) => p[0] == 4 && p.len() == 19,
                },
                TargetView::Domain(host, port) => {
                    let n = encode_utf8(host).len() as int;
                    &&& p[0] == 3
                    &&& p[1] == n
                    &&& p.len() == n + 4
                    &&& p.subrange(2, 2 + n) == encode_utf8(host)
                    &&& p.subrange(2 + n, 4 + n) == be_bytes(port as nat, 2)
                },
            }
        }),
{
    let p = target_bytes(t);
    match t {
        TargetView::Address(e) => {
            lemma_socks_address_len(e);
        },
        TargetView::Domain(host, port) => {
            let n = encode_utf8(host).len() as int;
            lemma_be_bytes_len(port as nat, 2);
            assert(p.subrange(2, 2 + n) =~= encode_utf8(host));
            assert(p.subrange(2 + n, 4 + n) =~= be_bytes(port as nat, 2));
        },
    }
}

/// Reads where a stream leads.
pub fn parse_target(payload: &[u8]) -> (r: Result<Target, TargetError>)
    ensures
        match r {
            Ok(t) => target_valid(t@) && payload@ == target_bytes(t@),
            Err(e) => e == target_error(payload@) && forall|t: TargetView|
                target_valid(t) ==> payload@ != #[trigger] target_bytes(t),
        },
{
    let n: usize = payload.len();
    proof {
        assert forall|t: TargetView| target_valid(t) && payload@ == #[trigger] target_bytes(
            t,
        ) implies payload@.len() > 0 by {
            lemma_target_shape(t);
        }
    }
    if n == 0 {
        return Err(TargetError::Missing);
    }
    let kind: u8 = payload[0];
    if (kind == 1 && n == 7) || (kind == 4 && n == 19) {
        let e = if kind == 1 {
            read_ipv4_endpoint(payload, 1)
        } else {
            read_ipv6_endpoint(payload, 1)
        };
        proof {
            assert(payload@ =~= seq![kind] + payload@.subrange(1, n as int));
            assert(socks_address(e) == payload@);
            assert forall|t: TargetView| target_valid(t) && payload@ == #[trigger] target_bytes(
                t,
            ) implies e.port != 0 by {
                lemma_target_shape(t);
                law_socks_address_unique(e, t->Address_0);
            }
        }
        if e.port == 0 {
            return Err(TargetError::ZeroPort);
        }
        return Ok(Target::Address(e));
    }
    if kind != 3 || n < 2 {
        proof {
            assert forall|t: TargetView| target_valid(t) implies payload@
                != #[trigger] target_bytes(t) by {
                lemma_target_shape(t);
            }
        }
        return Err(TargetError::Unsupported);
    }
    let len: usize = payload[1] as usize;
    if len == 0 || n != len + 4 {
        proof {
            assert forall|t: TargetView| target_valid(t) implies payload@
                != #[trigger] target_bytes(t) by {
                lemma_target_shape(t);
            }
        }
        return Err(TargetError::InvalidDomain);
    }
    let name = slice_subrange(payload, 2, 2 + len);
    let ghost tail = payload@.subrange(2 + len, 4 + len);
    proof {
        assert forall|t: TargetView| target_valid(t) && payload@ == #[trigger] target_bytes(
            t,
        ) implies {
            &&& t is Domain
            &&& encode_utf8(t->Domain_0) == name@
            &&& be_bytes(t->Domain_1 as nat, 2) == tail
            &&& !has_control(t->Domain_0)
            &&& t->Domain_1 != 0
        } by {
            lemma_target_shape(t);
        }
    }
    let host = match core::str::from_utf8(name) {
        Ok(host) => host,
        Err(_) => {
            proof {
                assert forall|t: TargetView| target_valid(t) implies payload@
                    != #[trigger] target_bytes(t) by {
                    if payload@ == target_bytes(t) {
                        vstd::utf8::encode_utf8_valid_utf8(t->Domain_0);
                    }
                }
            }
            return Err(TargetError::NotText);
        },
    };
    proof {
        vstd::utf8::encode_utf8_decode_utf8(host@);
    }
    let chars = chars_of(host);
    if text_has_control(chars.as_slice()) {
        proof {
            assert forall|t: TargetView| target_valid(t) implies payload@
                != #[trigger] target_bytes(t) by {
                if payload@ == target_bytes(t) {
                    vstd::utf8::encode_utf8_decode_utf8(t->Domain_0);
                }
            }
        }
        return Err(TargetError::InvalidDomain);
    }
    let port: u64 = read_be(payload, 2 + len, 4 + len);
    proof {
        lemma_pow256();
        lemma_be_bytes_of_nat(tail);
    }
    if port == 0 {
        proof {
            assert forall|t: TargetView| target_valid(t) implies payload@
                != #[trigger] target_bytes(t) by {
                if payload@ == target_bytes(t) {
                    lemma_be_nat_of_bytes(t->Domain_1 as nat, 2);
                }
            }
        }
        return Err(TargetError::ZeroPort);
    }
    proof {
        assert(payload@ =~= seq![3u8, len as u8] + name@ + tail);
    }
    Ok(Target::Domain(host.to_owned(), port as u16))
}

/// Whether clients may be connected to an address: not this machine, not a private
/// network or this link, and not a group of machines.
pub open spec fn destination_allowed(ip: IpAddress) -> bool {
    match ip {
        IpAddress::V4(v4) => ipv4_allowed(v4),
        IpAddress::V6(v6) => match v6.mapped_spec() {
            Some(v4) => ipv4_allowed(v4),
            None => {
                &&& !v6.is_unspecified_spec()
                &&& !v6.is_loopback_spec()
                &&& !(0xff00 <= v6.leading())
                &&& !(0xfe80 <= v6.leading() <= 0xfebf)
                &&& !(0xfc00 <= v6.leading() <= 0xfdff)
            },
        },
    }
}

/// Whether clients may be connected to an IPv4 address.
pub open spec fn ipv4_allowed(ip: Ipv4) -> bool {
    &&& !ip.is_unspecified_spec()
    &&& !ip.is_loopback_spec()
    &&& !ip.is_link_local_spec()
    &&& !ip.is_private_spec()
    &&& !ip.is_multicast_spec()
    &&& !ip.is_broadcast_spec()
}

fn allowed_ipv4(ip: Ipv4) -> (r: bool)
    ensures
        r == ipv4_allowed(ip),
{
    !ip.is_unspecified() && ip.a != 127 && !(ip.a == 169 && ip.b == 254) && !ip.is_private() && !(224
        <= ip.a && ip.a <= 239) && !(ip.a == 255 && ip.b == 255 && ip.c == 255 && ip.d == 255)
}

/// Whether clients may be connected to an address.
pub fn allowed_destination(address: IpAddress) -> (r: bool)
    ensures
        r == destination_allowed(address),
{
    match address {
        IpAddress::V4(ip) => allowed_ipv4(ip),
        IpAddress::V6(ip) => match ip.mapped() {
            Some(v4) => allowed_ipv4(v4),
            None => {
                let leading: u64 = ip.hi / 0x1_0000_0000_0000;
                !(ip.hi == 0 && ip.lo == 0) && !(ip.hi == 0 && ip.lo == 1) && leading < 0xff00 && !(
                0xfe80 <= leading && leading <= 0xfebf) && !(0xfc00 <= leading && leading <= 0xfdff)
            },
        },
    }
}

/// The first resolved address that clients may be connected to.
pub fn resolve_target(addresses: &Vec<Endpoint>) -> (r: Option<Endpoint>)
    ensures
        match r {
            Some(e) => exists|i: int|
                {
                    &&& 0 <= i < addresses@.len()
                    &&& #[trigger] addresses@[i] == e
                    &&& destination_allowed(e.ip)
                    &&& forall|j: int|
                        0 <= j < i ==> !destination_allowed((#[trigger] addresses@[j]).ip)
                },
            None => forall|i: int|
                0 <= i < addresses@.len() ==> !destination_allowed((#[trigger] addresses@[i]).ip),
        },
{
    let mut i: usize = 0;
    while i < addresses.len()
        invariant
            i <= addresses@.len(),
            forall|j: int| 0 <= j < i ==> !destination_allowed((#[trigger] addresses@[j]).ip),
        decreases addresses@.len() - i,
    {
        if allowed_destination(addresses[i].ip) {
            return Some(addresses[i]);
        }
        i = i + 1;
    }
    None
}

// ---------------------------------------------------------------------------
// The running streams
// ---------------------------------------------------------------------------

/// The running streams, by session and stream number, with a number by which each is
/// found again.
pub struct StreamRegistry {
    streams: DashMap<(u64, u64), u64>,
}

/// Why a frame ends the session's dialogue.
#[derive(Clone, Copy, Debug, PartialEq, Eq, Structural)]
pub enum FrameError {
    /// The packet is no frame.
    Invalid,
    /// A data frame is too long.
    DataTooLarge,
    /// Clients do not send frames of this kind.
    Unexpected,
}

/// What a frame calls for.
#[derive(Debug)]
pub enum FrameAction {
    /// Answers with this frame.
    Reply(Vec<u8>),
    /// Starts the stream with the given number.
    Open(Target),
    /// Hands data to the stream with this number, and reports whether it took them.
    Deliver(u64, Vec<u8>),
    /// Closes the stream with this number.
    Close(u64),
    /// Nothing: the stream is not there.
    Ignore,
}

/// The keys of the streams of a session.
pub open spec fn session_keys(m: Map<(u64, u64), u64>, session: u64) -> Set<(u64, u64)> {
    m.dom().filter(|k: (u64, u64)| k.0 == session)
}

/// Whether `numbers` are the numbers of the streams of a session, one for each stream, in
/// some order.
pub open spec fn session_numbers(
    m: Map<(u64, u64), u64>,
    session: u64,
    numbers: Seq<u64>,
) -> bool {
    exists|keys: Seq<(u64, u64)>|
        {
            &&& keys.no_duplicates()
            &&& #[trigger] keys.to_set() == session_keys(m, session)
            &&& numbers == keys.map_values(|k: (u64, u64)| m[k])
        }
}

/// Whether `action` and the streams afterwards are what an open request calls for.
pub open spec fn open_decided(
    before: Map<(u64, u64), u64>,
    after: Map<(u64, u64), u64>,
    session: u64,
    stream: u64,
    payload: Seq<u8>,
    number: u64,
    action: FrameAction,
) -> bool {
    let key = (session, stream);
    if before.len() >= MAX_GLOBAL_STREAMS || session_keys(before, session).len()
        >= MAX_SESSION_STREAMS || before.contains_key(key) {
        &&& after == before
        &&& action is Reply
        &&& action->Reply_0@ == frame_bytes(magic(), OPEN_ERR, stream, seq![1u8])
    } else if exists|t: TargetView| target_valid(t) && payload == #[trigger] target_bytes(t) {
        &&& after == before.insert(key, number)
        &&& action is Open
        &&& target_valid(action->Open_0@)
        &&& payload == target_bytes(action->Open_0@)
    } else {
        &&& after == before
        &&& action is Reply
        &&& action->Reply_0@ == frame_bytes(magic(), OPEN_ERR, stream, seq![8u8])
    }
}

/// Whether the result and the streams afterwards are what a frame calls for.
pub open spec fn frame_decided(
    before: Map<(u64, u64), u64>,
    after: Map<(u64, u64), u64>,
    session: u64,
    kind: u8,
    stream: u64,
    payload: Seq<u8>,
    number: u64,
    r: Result<FrameAction, FrameError>,
) -> bool {
    let key = (session, stream);
    if kind == OPEN {
        r is Ok && open_decided(before, after, session, stream, payload, number, r->Ok_0)
    } else if kind == DATA {
        &&& after == before
        &&& if payload.len() > MAX_DATA {
            r is Err && r->Err_0 == FrameError::DataTooLarge
        } else if before.contains_key(key) {
            r is Ok && r->Ok_0 is Deliver && r->Ok_0->Deliver_0 == before[key]
                && r->Ok_0->Deliver_1@ == payload
        } else {
            r is Ok && r->Ok_0 is Ignore
        }
    } else if kind == CLOSE {
        &&& after == before.remove(key)
        &&& if before.contains_key(key) {
            r is Ok && r->Ok_0 == FrameAction::Close(before[key])
        } else {
            r is Ok && r->Ok_0 is Ignore
        }
    } else {
        after == before && r is Err && r->Err_0 == FrameError::Unexpected
    }
}

impl StreamRegistry {
    /// The running streams.
    pub closed spec fn view(&self) -> Map<(u64, u64), u64> {
        map_entries(self.streams)
    }

    /// The limits hold.
    pub open spec fn wf(&self) -> bool {
        &&& self@.dom().finite()
        &&& self@.len() <= MAX_GLOBAL_STREAMS
        &&& forall|session: u64| #[trigger]
            session_keys(self@, session).len() <= MAX_SESSION_STREAMS
    }

    /// No streams.
    pub fn new() -> (r: Self)
        ensures
            r.wf(),
            r@ == Map::<(u64, u64), u64>::empty(),
    {
        let r = StreamRegistry { streams: map_new() };
        proof {
            assert forall|session: u64| #[trigger] session_keys(r@, session).len()
                <= MAX_SESSION_STREAMS by {
                assert(session_keys(r@, session) =~= Set::<(u64, u64)>::empty());
            }
        }
        r
    }

    /// Number of streams.
    pub fn len(&self) -> (r: usize)
        ensures
            r == self@.len(),
    {
        map_len(&self.streams)
    }

    /// The keys of the streams of a session, in no particular order.
    fn keys_of(&self, session: u64) -> (r: Vec<((u64, u64), u64)>)
        requires
            self@.dom().finite(),
        ensures
            forall|e: ((u64, u64), u64)| #[trigger]
                r@.contains(e) <==> self@.contains_key(e.0) && self@[e.0] == e.1 && e.0.0
                    == session,
            r@.no_duplicates(),
            r@.len() == session_keys(self@, session).len(),
    {
        let all = map_list(&self.streams);
        let mut r: Vec<((u64, u64), u64)> = Vec::new();
        let mut i: usize = 0;
        while i < all.len()
            invariant
                i <= all@.len(),
                all@.no_duplicates(),
                r@.no_duplicates(),
                forall|e: ((u64, u64), u64)| #[trigger]
                    r@.contains(e) <==> e.0.0 == session && all@.take(i as int).contains(e),
            decreases all@.len() - i,
        {
            let entry = all[i];
            let ghost before = r@;
            proof {
                assert(all@.take(i as int + 1) =~= all@.take(i as int).push(entry));
                if all@.take(i as int).contains(entry) {
                    let k = choose|k: int|
                        0 <= k < all@.take(i as int).len() && all@.take(i as int)[k] == entry;
                    assert(all@[k] == all@[i as int]);
                }
                assert(!all@.take(i as int).contains(entry));
                assert(!before.contains(entry));
            }
            if entry.0.0 == session {
                r.push(entry);
                proof {
                    assert forall|a: int, b: int|
                        0 <= a < r@.len() && 0 <= b < r@.len() && a != b implies r@[a]
                        != r@[b] by {
                        if a < before.len() {
                            assert(before.contains(before[a]));
                        }
                        if b < before.len() {
                            assert(before.contains(before[b]));
                        }
                    }
                }
            }
            proof {
                assert forall|e: ((u64, u64), u64)| #[trigger] r@.contains(e) <==> e.0.0 == session
                    && all@.take(i as int + 1).contains(e) by {
                    lemma_push_contains(all@.take(i as int), entry, e);
                    lemma_push_contains(before, entry, e);
                }
            }
            i = i + 1;
        }
        proof {
            assert(all@.take(i as int) =~= all@);
            let keys = r@.map_values(|e: ((u64, u64), u64)| e.0);
            assert(keys.no_duplicates()) by {
                assert forall|a: int, b: int|
                    0 <= a < keys.len() && 0 <= b < keys.len() && a != b implies keys[a]
                    != keys[b] by {
                    assert(r@.contains(r@[a]) && r@.contains(r@[b]));
                    assert(r@[a] != r@[b]);
                }
            }
            keys.unique_seq_to_set();
            assert(keys.to_set() =~= session_keys(self@, session)) by {
                assert forall|k: (u64, u64)| keys.to_set().contains(k) <==> session_keys(
                    self@,
                    session,
                ).contains(k) by {
                    if keys.contains(k) {
                        let x = choose|x: int| 0 <= x < keys.len() && keys[x] == k;
                        assert(r@.contains(r@[x]));
                    }
                    if session_keys(self@, session).contains(k) {
                        let e = (k, self@[k]);
                        assert(r@.contains(e));
                        let x = choose|x: int| 0 <= x < r@.len() && r@[x] == e;
                        assert(keys[x] == k);
                    }
                }
            }
        }
        r
    }

    /// Decides about a frame of a session. A stream that is opened gets `number`.
    pub fn handle_frame(&mut self, session_id: u64, payload: &[u8], number: u64) -> (r: Result<
        FrameAction,
        FrameError,
    >)
        requires
            old(self).wf(),
        ensures
            final(self).wf(),
            !frame_shaped(magic(), payload@) ==> r is Err && r->Err_0 == FrameError::Invalid
                && final(self)@ == old(self)@,
            forall|kind: u8, stream: u64, data: Seq<u8>|
                payload@ == #[trigger] frame_bytes(magic(), kind, stream, data) ==> frame_decided(
                    old(self)@,
                    final(self)@,
                    session_id,
                    kind,
                    stream,
                    data,
                    number,
                    r,
                ),
    {
        let frame = match parse_frame(payload) {
            Some(frame) => frame,
            None => {
                proof {
                    assert forall|kind: u8, stream: u64, data: Seq<u8>| payload@
                        != #[trigger] frame_bytes(magic(), kind, stream, data) by {
                        law_frame_round_trip(magic(), kind, stream, data);
                    }
                }
                return Err(FrameError::Invalid);
            },
        };
        proof {
            assert forall|kind: u8, stream: u64, data: Seq<u8>| payload@ == #[trigger] frame_bytes(
                magic(),
                kind,
                stream,
                data,
            ) implies kind == frame.kind && stream == frame.stream_id && data
                == frame.payload@ by {
                law_frame_round_trip(magic(), kind, stream, data);
                law_frame_round_trip(magic(), frame.kind, frame.stream_id, frame.payload@);
            }
        }
        let key: (u64, u64) = (session_id, frame.stream_id);
        if frame.kind == OPEN {
            Ok(self.open_stream(session_id, frame.stream_id, frame.payload.as_slice(), number))
        } else if frame.kind == DATA {
            if frame.payload.len() > MAX_DATA {
                return Err(FrameError::DataTooLarge);
            }
            match map_get(&self.streams, key) {
                Some(found) => Ok(FrameAction::Deliver(found, frame.payload)),
                None => Ok(FrameAction::Ignore),
            }
        } else if frame.kind == CLOSE {
            match self.remove(session_id, frame.stream_id) {
                Some(found) => Ok(FrameAction::Close(found)),
                None => Ok(FrameAction::Ignore),
            }
        } else {
            Err(FrameError::Unexpected)
        }
    }

    fn open_stream(
        &mut self,
        session_id: u64,
        stream_id: u64,
        payload: &[u8],
        number: u64,
    ) -> (r: FrameAction)
        requires
            old(self).wf(),
        ensures
            final(self).wf(),
            open_decided(
                old(self)@,
                final(self)@,
                session_id,
                stream_id,
                payload@,
                number,
                r,
            ),
    {
        let key: (u64, u64) = (session_id, stream_id);
        let count: usize = self.keys_of(session_id).len();
        if map_len(&self.streams) >= MAX_GLOBAL_STREAMS || count >= MAX_SESSION_STREAMS
            || map_get(&self.streams, key).is_some() {
            return FrameAction::Reply(code_frame(OPEN_ERR, stream_id, 1));
        }
        let target = match parse_target(payload) {
            Ok(target) => target,
            Err(_) => {
                return FrameAction::Reply(code_frame(OPEN_ERR, stream_id, 8));
            },
        };
        let ghost before = self@;
        map_insert(&mut self.streams, key, number);
        proof {
            let after = self@;
            assert(target_valid(target@) && payload@ == target_bytes(target@));
            assert(after.dom() =~= before.dom().insert(key));
            assert(after.len() == before.len() + 1);
            assert forall|session: u64| #[trigger] session_keys(after, session).len()
                <= MAX_SESSION_STREAMS by {
                let old_keys = session_keys(before, session);
                if session == session_id {
                    assert(session_keys(after, session) =~= old_keys.insert(key));
                    assert(!old_keys.contains(key));
                } else {
                    assert(session_keys(after, session) =~= old_keys);
                }
            }
        }
        FrameAction::Open(target)
    }

    /// Forgets a stream; gives back its number.
    pub fn remove(&mut self, session_id: u64, stream_id: u64) -> (r: Option<u64>)
        requires
            old(self).wf(),
        ensures
            final(self).wf(),
            final(self)@ == old(self)@.remove((session_id, stream_id)),
            r == (if old(self)@.contains_key((session_id, stream_id)) {
                Some(old(self)@[(session_id, stream_id)])
            } else {
                None
            }),
    {
        let key: (u64, u64) = (session_id, stream_id);
        let ghost before = self@;
        let r = map_remove(&mut self.streams, key);
        proof {
            lemma_remove_keeps_limits(before, key);
        }
        r
    }

    /// Notes whether a stream took data. A stream whose queue was full is closed, so that
    /// nothing after the lost data is delivered; its client is told by the frame that is
    /// given back.
    pub fn enqueue_data(&mut self, session_id: u64, stream_id: u64, taken: bool) -> (r: Option<
        Vec<u8>,
    >)
        requires
            old(self).wf(),
        ensures
            final(self).wf(),
            data_enqueued(old(self)@, final(self)@, session_id, stream_id, taken, r),
    {
        if taken {
            return None;
        }
        let ghost before = self@;
        match self.remove(session_id, stream_id) {
            Some(_) => Some(bare_frame(CLOSE, stream_id)),
            None => {
                proof {
                    assert(before.remove((session_id, stream_id)) =~= before);
                }
                None
            },
        }
    }

    /// The frames that end a stream: one that tells of a failed connection, where it
    /// failed, and one that closes the stream.
    pub fn finish_stream(&mut self, session_id: u64, stream_id: u64, failed: bool) -> (r: Vec<
        Vec<u8>,
    >)
        requires
            old(self).wf(),
        ensures
            final(self).wf(),
            final(self)@ == old(self)@.remove((session_id, stream_id)),
            farewell(stream_id, failed, r@),
    {
        let _number = self.remove(session_id, stream_id);
        let mut r: Vec<Vec<u8>> = Vec::new();
        if failed {
            r.push(code_frame(OPEN_ERR, stream_id, 5));
        }
        r.push(bare_frame(CLOSE, stream_id));
        r
    }

    /// Forgets all streams of a session; gives back their numbers, each once for each
    /// stream.
    pub fn close_session(&mut self, session_id: u64) -> (r: Vec<u64>)
        requires
            old(self).wf(),
        ensures
            final(self).wf(),
            forall|k: (u64, u64)| #[trigger]
                final(self)@.contains_key(k) <==> old(self)@.contains_key(k) && k.0 != session_id,
            forall|k: (u64, u64)| #[trigger]
                final(self)@.contains_key(k) ==> final(self)@[k] == old(self)@[k],
            session_numbers(old(self)@, session_id, r@),
    {
        let keys = self.keys_of(session_id);
        let ghost all = self@;
        let mut r: Vec<u64> = Vec::new();
        let mut i: usize = 0;
        while i < keys.len()
            invariant
                i <= keys@.len(),
                self.wf(),
                keys@.no_duplicates(),
                r@.len() == i,
                forall|e: ((u64, u64), u64)| #[trigger]
                    keys@.contains(e) <==> all.contains_key(e.0) && all[e.0] == e.1 && e.0.0
                        == session_id,
                forall|j: int| 0 <= j < i ==> r@[j] == (#[trigger] keys@[j]).1,
                forall|k: (u64, u64)| #[trigger]
                    self@.contains_key(k) ==> all.contains_key(k) && self@[k] == all[k],
                forall|k: (u64, u64)|
                    #![trigger self@.contains_key(k)]
                    all.contains_key(k) && !self@.contains_key(k) ==> k.0 == session_id,
                forall|j: int| 0 <= j < i ==> !self@.contains_key((#[trigger] keys@[j]).0),
            decreases keys@.len() - i,
        {
            let entry = keys[i];
            proof {
                assert(keys@.contains(entry));
            }
            let _number = self.remove(entry.0.0, entry.0.1);
            r.push(entry.1);
            i = i + 1;
        }
        proof {
            assert forall|k: (u64, u64)| #[trigger] self@.contains_key(k) <==> all.contains_key(k)
                && k.0 != session_id by {
                if all.contains_key(k) && k.0 == session_id {
                    let e = (k, all[k]);
                    assert(keys@.contains(e));
                    let j = choose|j: int| 0 <= j < keys@.len() && keys@[j] == e;
                    assert(!self@.contains_key(keys@[j].0));
                }
            }
            let names = keys@.map_values(|e: ((u64, u64), u64)| e.0);
            assert forall|i: int| 0 <= i < keys@.len() implies all.contains_key(
                (#[trigger] keys@[i]).0,
            ) && all[keys@[i].0] == keys@[i].1 && keys@[i].0.0 == session_id by {
                assert(keys@.contains(keys@[i]));
            }
            assert(names.no_duplicates()) by {
                assert forall|i: int, j: int|
                    0 <= i < names.len() && 0 <= j < names.len() && i != j implies names[i]
                    != names[j] by {
                    assert(keys@[i] != keys@[j]);
                }
            }
            assert(names.to_set() =~= session_keys(all, session_id)) by {
                assert forall|k: (u64, u64)| #[trigger]
                    session_keys(all, session_id).contains(k) implies names.contains(k) by {
                    let e = (k, all[k]);
                    assert(keys@.contains(e));
                    let j = choose|j: int| 0 <= j < keys@.len() && keys@[j] == e;
                    assert(names[j] == k);
                }
            }
            assert(r@ =~= names.map_values(|k: (u64, u64)| all[k]));
        }
        r
    }
}

proof fn lemma_push_contains<A>(s: Seq<A>, x: A, e: A)
    ensures
        s.push(x).contains(e) <==> s.contains(e) || e == x,
{
    if s.contains(e) {
        let k = choose|k: int| 0 <= k < s.len() && s[k] == e;
        assert(s.push(x)[k] == e);
    }
    if e == x {
        assert(s.push(x)[s.len() as int] == e);
    }
}

proof fn lemma_remove_keeps_limits(m: Map<(u64, u64), u64>, key: (u64, u64))
    requires
        m.dom().finite(),
        m.len() <= MAX_GLOBAL_STREAMS,
        forall|session: u64| #[trigger] session_keys(m, session).len() <= MAX_SESSION_STREAMS,
    ensures
        m.remove(key).dom().finite(),
        m.remove(key).len() <= MAX_GLOBAL_STREAMS,
        forall|session: u64| #[trigger]
            session_keys(m.remove(key), session).len() <= MAX_SESSION_STREAMS,
{
    let n = m.remove(key);
    assert(n.dom() =~= m.dom().remove(key));
    assert forall|session: u64| #[trigger] session_keys(n, session).len()
        <= MAX_SESSION_STREAMS by {
        let a = session_keys(m, session);
        let b = session_keys(n, session);
        assert(b =~= a.remove(key));
        assert(a.len() <= MAX_SESSION_STREAMS);
    }
}

/// What happens to the connection of a running stream.
#[derive(Debug)]
pub enum StreamEvent {
    /// The connection to the target is there.
    Connected,
    /// No address of the target is allowed, or connecting failed.
    ConnectFailed,
    /// Bytes came from the target; none where it has closed its side.
    Read(Vec<u8>),
    /// Reading or writing failed.
    Broken,
    /// The client sent something, or has gone.
    Input(Option<StreamInput>),
}

/// What a running stream does next.
#[derive(Debug)]
pub enum StreamStep {
    /// Sends a frame to the client.
    Send(Vec<u8>),
    /// Writes bytes to the target.
    Write(Vec<u8>),
    /// Ends, as a failure or not.
    End(bool),
}

/// Whether `step` answers `event` on a stream.
pub open spec fn stream_answer(stream_id: u64, event: StreamEvent, step: StreamStep) -> bool {
    match event {
        StreamEvent::Connected => step is Send && step->Send_0@ == frame_bytes(
            magic(),
            OPEN_OK,
            stream_id,
            Seq::empty(),
        ),
        StreamEvent::ConnectFailed | StreamEvent::Broken => step == StreamStep::End(true),
        StreamEvent::Read(bytes) => if bytes@.len() == 0 {
            step == StreamStep::End(false)
        } else {
            step is Send && step->Send_0@ == frame_bytes(magic(), DATA, stream_id, bytes@)
        },
        StreamEvent::Input(Some(StreamInput::Data(bytes))) => step == StreamStep::Write(bytes),
        StreamEvent::Input(_) => step == StreamStep::End(false),
    }
}

/// Decides what a running stream does after an event.
pub fn stream_step(stream_id: u64, event: StreamEvent) -> (r: StreamStep)
    ensures
        stream_answer(stream_id, event, r),
{
    match event {
        StreamEvent::Connected => StreamStep::Send(bare_frame(OPEN_OK, stream_id)),
        StreamEvent::ConnectFailed => StreamStep::End(true),
        StreamEvent::Broken => StreamStep::End(true),
        StreamEvent::Read(bytes) => {
            if bytes.len() == 0 {
                StreamStep::End(false)
            } else {
                StreamStep::Send(encode_frame(DATA, stream_id, bytes.as_slice()))
            }
        },
        StreamEvent::Input(Some(StreamInput::Data(bytes))) => StreamStep::Write(bytes),
        StreamEvent::Input(_) => StreamStep::End(false),
    }
}

/// No client is ever connected to this machine, to a private network or to this link:
/// an allowed address is none of these, in either family.
pub proof fn law_private_destinations_blocked(ip: IpAddress)
    requires
        destination_allowed(ip),
    ensures
        !ip.is_loopback_spec(),
        match ip {
            IpAddress::V4(v4) => !v4.is_private_spec() && !v4.is_link_local_spec(),
            IpAddress::V6(v6) => match v6.mapped_spec() {
                Some(v4) => !v4.is_private_spec() && !v4.is_link_local_spec()
                    && !v4.is_loopback_spec(),
                None => !(0xfe80 <= v6.leading() <= 0xfebf) && !(0xfc00 <= v6.leading() <= 0xfdff),
            },
        },
{
}

/// A name on the wire is read back: its type, its length, its letters, its port in network
/// order.
pub proof fn law_named_target_layout(host: Seq<char>, port: u16)
    requires
        1 <= encode_utf8(host).len() <= 255,
    ensures
        ({
            let b = target_bytes(TargetView::Domain(host, port));
            let n = encode_utf8(host).len() as int;
            &&& b.len() == n + 4
            &&& b[0] == 3
            &&& b[1] == n
            &&& b.subrange(2, 2 + n) == encode_utf8(host)
            &&& be_nat(b.subrange(2 + n, 4 + n)) == port
        }),
{
    lemma_pow256();
    lemma_be_nat_of_bytes(port as nat, 2);
    let b = target_bytes(TargetView::Domain(host, port));
    let n = encode_utf8(host).len() as int;
    assert(b.subrange(2, 2 + n) =~= encode_utf8(host));
    assert(b.subrange(2 + n, 4 + n) =~= be_bytes(port as nat, 2));
}

/// Why a target is refused: nothing at all, an unknown type or a wrong length, a name that
/// is empty, cut off, not text or not printable, and a port of zero.
pub proof fn law_refused_targets(p: Seq<u8>)
    ensures
        p.len() == 0 ==> target_error(p) == TargetError::Missing,
        p.len() > 0 && p[0] != 1 && p[0] != 3 && p[0] != 4 ==> target_error(p)
            == TargetError::Unsupported,
        p.len() > 0 && p[0] == 1 && p.len() != 7 ==> target_error(p) == TargetError::Unsupported,
        p.len() > 0 && p[0] == 4 && p.len() != 19 ==> target_error(p) == TargetError::Unsupported,
        p.len() == 1 && p[0] == 3 ==> target_error(p) == TargetError::Unsupported,
        p.len() >= 2 && p[0] == 3 && (p[1] == 0 || p.len() != p[1] + 4) ==> target_error(p)
            == TargetError::InvalidDomain,
        p.len() >= 2 && p[0] == 3 && p[1] > 0 && p.len() == p[1] + 4 && !valid_utf8(
            p.subrange(2, 2 + p[1] as int),
        ) ==> target_error(p) == TargetError::NotText,
        p.len() == 7 && p[0] == 1 ==> target_error(p) == TargetError::ZeroPort,
        p.len() == 19 && p[0] == 4 ==> target_error(p) == TargetError::ZeroPort,
{
}

/// A target needs a port; a name needs one to 255 bytes and no control characters.
pub proof fn law_valid_targets(t: TargetView)
    ensures
        t matches TargetView::Address(e) ==> (target_valid(t) <==> e.port > 0),
        t matches TargetView::Domain(host, port) ==> (target_valid(t) <==> port > 0 && 0
            < encode_utf8(host).len() < 256 && !has_control(host)),
{
}

/// Every address of the public network may be reached: those outside the ranges for this
/// machine, for private and local networks, and for many receivers.
pub proof fn law_public_destinations_are_allowed(ip: Ipv4)
    ensures
        destination_allowed(IpAddress::V4(ip)) <==> !(ip.a == 127 || ip.a == 10 || (ip.a == 172
            && 16 <= ip.b < 32) || (ip.a == 192 && ip.b == 168) || (ip.a == 169 && ip.b == 254) || (
        224 <= ip.a < 240) || ip.octets_spec() == seq![0u8, 0, 0, 0] || ip.octets_spec() == seq![
            255u8,
            255,
            255,
            255,
        ]),
{
    let o = ip.octets_spec();
    assert(o[0] == ip.a && o[1] == ip.b && o[2] == ip.c && o[3] == ip.d);
    if ip.is_unspecified_spec() {
        assert(o =~= seq![0u8, 0, 0, 0]);
    }
    if ip.is_broadcast_spec() {
        assert(o =~= seq![255u8, 255, 255, 255]);
    }
}

/// The same of the newer addresses: none that is unspecified, loopback, for many receivers,
/// link-local or unique local may be reached, and any other may.
pub proof fn law_public_ipv6_destinations_are_allowed(ip: Ipv6)
    ensures
        ip.hi == 0 && ip.lo <= 1 ==> !destination_allowed(IpAddress::V6(ip)),
        ip.hi >= 0xff00_0000_0000_0000 ==> !destination_allowed(IpAddress::V6(ip)),
        0xfe80_0000_0000_0000 <= ip.hi < 0xfec0_0000_0000_0000 ==> !destination_allowed(
            IpAddress::V6(ip),
        ),
        0xfc00_0000_0000_0000 <= ip.hi < 0xfe00_0000_0000_0000 ==> !destination_allowed(
            IpAddress::V6(ip),
        ),
        0 < ip.hi < 0xfc00_0000_0000_0000 ==> destination_allowed(IpAddress::V6(ip)),
        0xfec0_0000_0000_0000 <= ip.hi < 0xff00_0000_0000_0000 ==> destination_allowed(
            IpAddress::V6(ip),
        ),
{
}

/// An address that stands for an older one is judged as that.
pub proof fn law_mapped_destinations(ip: Ipv6, old: Ipv4)
    requires
        ip.hi == 0,
        ip.lo == 0xffff_0000_0000 + old.number_spec(),
    ensures
        destination_allowed(IpAddress::V6(ip)) <==> destination_allowed(IpAddress::V4(old)),
{
    law_mapped_addresses(old, ip);
}

/// A stream is opened where there is room for it, in all and in its session, and it is not
/// open yet, and only to a valid target, which is read as it was written; it is refused with
/// code 1 without room and with code 8 without a valid target.
pub proof fn law_streams_open_within_limits(
    before: Map<(u64, u64), u64>,
    after: Map<(u64, u64), u64>,
    session: u64,
    stream: u64,
    t: TargetView,
    payload: Seq<u8>,
    number: u64,
    r: Result<FrameAction, FrameError>,
)
    requires
        target_valid(t),
        frame_decided(before, after, session, 1, stream, payload, number, r),
    ensures
        before.len() >= 256 || session_keys(before, session).len() >= 32 || before.contains_key(
            (session, stream),
        ) ==> after == before && (r matches Ok(FrameAction::Reply(f)) && f@ == frame_bytes(
            magic(),
            3,
            stream,
            seq![1u8],
        )),
        before.len() < 256 && session_keys(before, session).len() < 32 && !before.contains_key(
            (session, stream),
        ) && payload == target_bytes(t) ==> after == before.insert((session, stream), number) && (
        r matches Ok(FrameAction::Open(got)) && got@ == t),
        before.len() < 256 && session_keys(before, session).len() < 32 && !before.contains_key(
            (session, stream),
        ) && (forall|other: TargetView|
            target_valid(other) ==> payload != #[trigger] target_bytes(other)) ==> after == before
            && (r matches Ok(FrameAction::Reply(f)) && f@ == frame_bytes(
            magic(),
            3,
            stream,
            seq![8u8],
        )),
{
    if before.len() < 256 && session_keys(before, session).len() < 32 && !before.contains_key(
        (session, stream),
    ) && payload == target_bytes(t) {
        assert(target_valid(t) && payload == target_bytes(t));
        law_target_bytes_unique(r->Ok_0->Open_0@, t);
    }
}

/// Data goes to the stream that it names, in its own session, whole and unchanged; data for
/// no stream is dropped, and a frame that holds too much is an error. No data opens or
/// closes a stream.
pub proof fn law_data_goes_to_its_stream(
    before: Map<(u64, u64), u64>,
    after: Map<(u64, u64), u64>,
    session: u64,
    stream: u64,
    payload: Seq<u8>,
    number: u64,
    r: Result<FrameAction, FrameError>,
)
    requires
        frame_decided(before, after, session, 4, stream, payload, number, r),
    ensures
        after == before,
        payload.len() > 2000 ==> (r matches Err(FrameError::DataTooLarge)),
        payload.len() <= 2000 && before.contains_key((session, stream)) ==> (r matches Ok(
            FrameAction::Deliver(to, data),
        ) && to == before[(session, stream)] && data@ == payload),
        payload.len() <= 2000 && !before.contains_key((session, stream)) ==> (r matches Ok(
            FrameAction::Ignore,
        )),
{
}

/// A closing frame closes the stream that it names and no other; closing what is not open
/// does nothing. A frame of a kind that only the server sends is an error.
pub proof fn law_close_forgets_one_stream(
    before: Map<(u64, u64), u64>,
    after: Map<(u64, u64), u64>,
    session: u64,
    stream: u64,
    kind: u8,
    payload: Seq<u8>,
    number: u64,
    r: Result<FrameAction, FrameError>,
    other: (u64, u64),
)
    requires
        frame_decided(before, after, session, kind, stream, payload, number, r),
    ensures
        kind == 5 ==> !after.contains_key((session, stream)),
        kind == 5 && before.contains_key((session, stream)) ==> (r matches Ok(
            FrameAction::Close(closed),
        ) && closed == before[(session, stream)]),
        kind == 5 && !before.contains_key((session, stream)) ==> (r matches Ok(FrameAction::Ignore)),
        kind == 0 || kind == 2 || kind == 3 || kind > 5 ==> after == before && (r matches Err(
            FrameError::Unexpected,
        )),
        other != (session, stream) ==> (after.contains_key(other) <==> before.contains_key(other))
            && (before.contains_key(other) ==> after[other] == before[other]),
{
}

/// The keys of a session are those that begin with its number.
pub proof fn law_session_keys(m: Map<(u64, u64), u64>, session: u64, key: (u64, u64))
    ensures
        session_keys(m, session).contains(key) <==> m.contains_key(key) && key.0 == session,
{
}

/// A stream answers what happens to it: a connection is announced, what is read is sent on,
/// what comes in is written; an end on either side ends it, a fault as a failure.
pub proof fn law_streams_answer_events(stream_id: u64, event: StreamEvent, step: StreamStep)
    requires
        stream_answer(stream_id, event, step),
    ensures
        event is Connected ==> (step matches StreamStep::Send(f) && f@ == frame_bytes(
            magic(),
            2,
            stream_id,
            Seq::empty(),
        )),
        event is ConnectFailed || event is Broken ==> step == StreamStep::End(true),
        event matches StreamEvent::Read(bytes) ==> (bytes@.len() == 0 ==> step == StreamStep::End(
            false,
        )) && (bytes@.len() > 0 ==> (step matches StreamStep::Send(f) && f@ == frame_bytes(
            magic(),
            4,
            stream_id,
            bytes@,
        ))),
        event matches StreamEvent::Input(Some(StreamInput::Data(bytes))) ==> step
            == StreamStep::Write(bytes),
        event matches StreamEvent::Input(None) ==> step == StreamStep::End(false),
        event matches StreamEvent::Input(Some(StreamInput::Close)) ==> step == StreamStep::End(
            false,
        ),
{
}

/// Frames begin with six letters of their own: C, S, Q, P, X and the version 1.
pub proof fn law_frames_begin_with_their_letters(kind: u8, stream_id: u64, payload: Seq<u8>)
    ensures
        ({
            let f = frame_bytes(magic(), kind, stream_id, payload);
            &&& f[0] == 67 && f[1] == 83 && f[2] == 81 && f[3] == 80 && f[4] == 88 && f[5] == 49
            &&& f[6] == kind
            &&& be_nat(f.subrange(7, 15)) == stream_id
            &&& f.skip(15) == payload
        }),
{
    lemma_pow256();
    lemma_be_nat_of_bytes(stream_id as nat, 8);
    let f = frame_bytes(magic(), kind, stream_id, payload);
    assert(f.subrange(7, 15) =~= be_bytes(stream_id as nat, 8));
    assert(f.skip(15) =~= payload);
}

/// What handing data to a stream does.
pub open spec fn data_enqueued(
    before: Map<(u64, u64), u64>,
    after: Map<(u64, u64), u64>,
    session: u64,
    stream: u64,
    taken: bool,
    r: Option<Vec<u8>>,
) -> bool {
    let key = (session, stream);
    if before.contains_key(key) && !taken {
        &&& after == before.remove(key)
        &&& r is Some
        &&& r->0@ == frame_bytes(magic(), CLOSE, stream, Seq::empty())
    } else {
        after == before && r is None
    }
}

/// A stream whose data is not taken is closed and the client told so, because it would miss
/// bytes; no other stream is touched.
pub proof fn law_stuck_streams_are_closed(
    before: Map<(u64, u64), u64>,
    after: Map<(u64, u64), u64>,
    session: u64,
    stream: u64,
    taken: bool,
    r: Option<Vec<u8>>,
    other: (u64, u64),
)
    requires
        data_enqueued(before, after, session, stream, taken, r),
    ensures
        taken ==> after == before && r is None,
        !taken ==> !after.contains_key((session, stream)),
        !taken && before.contains_key((session, stream)) ==> (r matches Some(f) && f@
            == frame_bytes(magic(), 5, stream, Seq::empty())),
        !before.contains_key((session, stream)) ==> r is None,
        other != (session, stream) ==> (after.contains_key(other) <==> before.contains_key(other)),
{
}

/// What the client is told when a stream ends.
pub open spec fn farewell(stream: u64, failed: bool, frames: Seq<Vec<u8>>) -> bool {
    let close = frame_bytes(magic(), CLOSE, stream, Seq::empty());
    if failed {
        &&& frames.len() == 2
        &&& frames[0]@ == frame_bytes(magic(), OPEN_ERR, stream, seq![5u8])
        &&& frames[1]@ == close
    } else {
        frames.len() == 1 && frames[0]@ == close
    }
}

/// The last that the client hears of a stream is that it was closed; a failure is told
/// before, with code 5.
pub proof fn law_last_word_is_close(stream: u64, failed: bool, frames: Seq<Vec<u8>>)
    requires
        farewell(stream, failed, frames),
    ensures
        frames.len() > 0,
        frames.last()@ == frame_bytes(magic(), 5, stream, Seq::empty()),
        failed <==> frames.len() == 2,
        failed ==> frames[0]@ == frame_bytes(magic(), 3, stream, seq![5u8]),
{
}

/// Closing a session gives the number of every stream of it, once.
pub proof fn law_closed_sessions_name_their_streams(
    m: Map<(u64, u64), u64>,
    session: u64,
    numbers: Seq<u64>,
    stream: u64,
)
    requires
        session_numbers(m, session, numbers),
    ensures
        m.contains_key((session, stream)) ==> numbers.contains(m[(session, stream)]),
        numbers.len() == session_keys(m, session).len(),
{
    let keys = choose|keys: Seq<(u64, u64)>| {
        &&& keys.no_duplicates()
        &&& #[trigger] keys.to_set() == session_keys(m, session)
        &&& numbers == keys.map_values(|k: (u64, u64)| m[k])
    };
    keys.unique_seq_to_set();
    if m.contains_key((session, stream)) {
        assert(keys.to_set().contains((session, stream)));
        assert(keys.contains((session, stream)));
        let i = choose|i: int| 0 <= i < keys.len() && keys[i] == (session, stream);
        assert(numbers[i] == m[(session, stream)]);
    }
}

} // verus!
