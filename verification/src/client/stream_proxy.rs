//! The local SOCKS5 listener: its handshake, its streams and their frames.
use vstd::prelude::*;
use crate::addr::IpAddress;
use crate::server::socks::lemma_socks_address_len;
use crate::server::stream_proxy::{TargetView, target_bytes};
use crate::octets::{
    be_bytes, be_nat, has_prefix, lemma_be_bytes_len, lemma_be_nat_of_bytes, lemma_pow256,
    push_bytes, sub_bytes,
};
use crate::frame::{
    CLOSE, DATA, Frame, MAX_DATA, OPEN_ERR, OPEN_OK, encode_frame_of, frame_bytes, frame_shaped,
    is_frame_of, law_frame_round_trip, parse_frame_of,
};
use vstd::utf8::encode_utf8;

verus! {

/// Most streams that are served at one time.
pub const MAX_STREAMS: usize = 64;

/// What a frame tells the stream that it belongs to.
#[derive(Debug)]
pub enum Inbound {
    Opened,
    Error(u8),
    Data(Vec<u8>),
    Closed,
}

/// The first bytes of every frame: `CSQPX2`.
pub open spec fn magic() -> Seq<u8> {
    seq![0x43u8, 0x53, 0x51, 0x50, 0x58, 0x32]
}

fn magic_bytes() -> (r: [u8; 6])
    ensures
        r@ == magic(),
{
    let r: [u8; 6] = [0x43, 0x53, 0x51, 0x50, 0x58, 0x32];
    proof {
        assert(r@ =~= magic());
    }
    r
}

/// Whether a packet is a proxy frame.
pub fn is_frame(payload: &[u8]) -> (r: bool)
    ensures
        r == frame_shaped(magic(), payload@),
{
    is_frame_of(&magic_bytes(), payload)
}

/// The kind and the stream of a frame.
pub fn frame_route(payload: &[u8]) -> (r: Option<(u8, u64)>)
    ensures
        match r {
            Some((kind, stream_id)) => frame_shaped(magic(), payload@) && payload@ == frame_bytes(
                magic(),
                kind,
                stream_id,
                payload@.skip(15),
            ),
            None => !frame_shaped(magic(), payload@),
        },
{
    match parse_frame(payload) {
        Some(frame) => {
            proof {
                law_frame_round_trip(magic(), frame.kind, frame.stream_id, frame.payload@);
            }
            Some((frame.kind, frame.stream_id))
        },
        None => None,
    }
}

/// Takes a frame apart.
pub fn parse_frame(payload: &[u8]) -> (r: Option<Frame>)
    ensures
        match r {
            Some(frame) => frame_shaped(magic(), payload@) && payload@ == frame_bytes(
                magic(),
                frame.kind,
                frame.stream_id,
                frame.payload@,
            ),
            None => !frame_shaped(magic(), payload@),
        },
{
    parse_frame_of(&magic_bytes(), payload)
}

/// Puts a frame together.
pub fn encode_frame(kind: u8, stream_id: u64, payload: &[u8]) -> (r: Vec<u8>)
    ensures
        r@ == frame_bytes(magic(), kind, stream_id, payload@),
{
    encode_frame_of(&magic_bytes(), kind, stream_id, payload)
}

/// Whether `event` is what a frame of the given kind and payload tells its stream.
pub open spec fn is_event(kind: u8, payload: Seq<u8>, event: Option<Inbound>) -> bool {
    if kind == OPEN_OK {
        event == Some(Inbound::Opened)
    } else if kind == OPEN_ERR {
        event == Some(
            Inbound::Error(
                if payload.len() > 0 {
                    payload[0]
                } else {
                    1
                },
            ),
        )
    } else if kind == DATA && payload.len() <= MAX_DATA + 8 {
        event matches Some(Inbound::Data(data)) && data@ == payload
    } else if kind == CLOSE {
        event == Some(Inbound::Closed)
    } else {
        event is None
    }
}

/// What a frame from the server tells its stream; frames of other kinds and data
/// frames that are too long are ignored.
pub fn inbound_event(frame: Frame) -> (r: Option<Inbound>)
    ensures
        is_event(frame.kind, frame.payload@, r),
{
    if frame.kind == OPEN_OK {
        Some(Inbound::Opened)
    } else if frame.kind == OPEN_ERR {
        if frame.payload.len() > 0 {
            Some(Inbound::Error(frame.payload[0]))
        } else {
            Some(Inbound::Error(1))
        }
    } else if frame.kind == DATA && frame.payload.len() <= MAX_DATA + 8 {
        Some(Inbound::Data(frame.payload))
    } else if frame.kind == CLOSE {
        Some(Inbound::Closed)
    } else {
        None
    }
}

/// The streams that wait for frames.
pub struct InboundStreams {
    ids: Vec<u64>,
    next: u64,
}

impl InboundStreams {
    /// The open streams.
    pub closed spec fn view(&self) -> Set<u64> {
        self.ids@.to_set()
    }

    /// The number of the next stream, before it is kept from being zero.
    pub closed spec fn counter(&self) -> u64 {
        self.next
    }

    /// No stream is listed twice.
    pub closed spec fn wf(&self) -> bool {
        self.ids@.no_duplicates()
    }

    /// No streams; numbering starts at one.
    pub fn new() -> (r: Self)
        ensures
            r.wf(),
            r@ == Set::<u64>::empty(),
            r.counter() == 1,
    {
        let r = InboundStreams { ids: Vec::new(), next: 1 };
        proof {
            assert(r.ids@.to_set() =~= Set::<u64>::empty());
        }
        r
    }

    /// Number of open streams.
    pub fn len(&self) -> (r: usize)
        requires
            self.wf(),
        ensures
            r == self@.len(),
    {
        proof {
            self.ids@.unique_seq_to_set();
        }
        self.ids.len()
    }

    /// Whether a new connection may be accepted.
    pub fn can_accept(&self) -> (r: bool)
        requires
            self.wf(),
        ensures
            r == (self@.len() < MAX_STREAMS),
    {
        self.len() < MAX_STREAMS
    }

    /// The number for a new stream. Numbers count up and are never zero.
    pub fn next_id(&mut self) -> (r: u64)
        requires
            old(self).wf(),
        ensures
            final(self).wf(),
            final(self)@ == old(self)@,
            r == id_for(old(self).counter()),
            final(self).counter() == counter_after(old(self).counter()),
    {
        let id: u64 = self.next;
        self.next = self.next.wrapping_add(1);
        if id == 0 {
            1
        } else {
            id
        }
    }

    /// Whether a stream is open.
    pub fn contains(&self, id: u64) -> (r: bool)
        ensures
            r == self@.contains(id),
    {
        self.position(id).is_some()
    }

    fn position(&self, id: u64) -> (r: Option<usize>)
        ensures
            match r {
                Some(i) => i < self.ids@.len() && self.ids@[i as int] == id && self@.contains(id),
                None => !self.ids@.contains(id) && !self@.contains(id),
            },
    {
        let mut i: usize = 0;
        while i < self.ids.len()
            invariant
                i <= self.ids@.len(),
                forall|j: int| 0 <= j < i ==> #[trigger] self.ids@[j] != id,
            decreases self.ids@.len() - i,
        {
            if self.ids[i] == id {
                proof {
                    assert(self.ids@.contains(self.ids@[i as int]));
                }
                return Some(i);
            }
            i = i + 1;
        }
        None
    }

    /// Lists a stream.
    pub fn insert(&mut self, id: u64)
        requires
            old(self).wf(),
        ensures
            final(self).wf(),
            final(self)@ == old(self)@.insert(id),
            final(self).counter() == old(self).counter(),
    {
        if self.position(id).is_none() {
            let ghost before = self.ids@;
            self.ids.push(id);
            proof {
                assert(self.ids@.to_set() =~= before.to_set().insert(id)) by {
                    assert forall|x: u64| self.ids@.contains(x) <==> (before.contains(x) || x
                        == id) by {
                        if before.contains(x) {
                            let k = choose|k: int| 0 <= k < before.len() && before[k] == x;
                            assert(self.ids@[k] == x);
                        }
                        if x == id {
                            assert(self.ids@[before.len() as int] == x);
                        }
                    }
                }
            }
        } else {
            proof {
                assert(self.ids@.to_set().insert(id) =~= self.ids@.to_set());
            }
        }
    }

    /// Forgets a stream.
    pub fn remove(&mut self, id: u64)
        requires
            old(self).wf(),
        ensures
            final(self).wf(),
            final(self)@ == old(self)@.remove(id),
            final(self).counter() == old(self).counter(),
    {
        match self.position(id) {
            Some(i) => {
                let ghost before = self.ids@;
                let _removed = self.ids.remove(i);
                proof {
                    let after = self.ids@;
                    assert forall|x: u64| after.contains(x) <==> (before.contains(x) && x != id) by {
                        if after.contains(x) {
                            let k = choose|k: int| 0 <= k < after.len() && after[k] == x;
                            if k < i {
                                assert(before[k] == x);
                            } else {
                                assert(before[k + 1] == x);
                            }
                        }
                        if before.contains(x) && x != id {
                            let k = choose|k: int| 0 <= k < before.len() && before[k] == x;
                            if k < i {
                                assert(after[k] == x);
                            } else {
                                assert(after[k - 1] == x);
                            }
                        }
                    }
                    assert(after.to_set() =~= before.to_set().remove(id));
                }
            },
            None => {
                proof {
                    assert(self.ids@.to_set().remove(id) =~= self.ids@.to_set());
                }
            },
        }
    }

    /// Notes the outcome of handing an event to a stream: a stream whose queue
    /// refused one is closed, so that nothing after the lost frame is delivered.
    pub fn deliver_inbound(&mut self, id: u64, accepted: bool) -> (delivered: bool)
        requires
            old(self).wf(),
        ensures
            final(self).wf(),
            delivered == (old(self)@.contains(id) && accepted),
            final(self)@ == (if accepted {
                old(self)@
            } else {
                old(self)@.remove(id)
            }),
            final(self).counter() == old(self).counter(),
    {
        if !self.contains(id) {
            proof {
                assert(self@.remove(id) =~= self@);
            }
            return false;
        }
        if !accepted {
            self.remove(id);
            return false;
        }
        true
    }
}

/// What the local client is answered once the open request was decided.
#[derive(Clone, Copy, Debug, PartialEq, Eq, Structural)]
pub struct OpenReply {
    /// The SOCKS5 reply code.
    pub code: u8,
    /// Whether the stream goes on.
    pub proceed: bool,
}

/// The reply to an open request: success, the code that the server gave, or
/// "host unreachable" where anything else came or nothing in time.
pub fn open_reply(event: Option<Inbound>) -> (r: OpenReply)
    ensures
        r == reply_to(event),
{
    match event {
        Some(Inbound::Opened) => OpenReply { code: 0, proceed: true },
        Some(Inbound::Error(code)) => OpenReply { code, proceed: false },
        _ => OpenReply { code: 4, proceed: false },
    }
}

/// What an open stream does next.
#[derive(Debug)]
pub enum RelayStep {
    /// Hands these bytes to the local client.
    Write(Vec<u8>),
    /// Goes on reading.
    Ignore,
    /// Ends the stream.
    Stop,
}

/// What an open stream does with an event; no event means that its queue was closed.
///
/// The payload of a data frame begins with its place in the stream. `decoded` is what
/// follows that place, or nothing where the place is not the next one; it matters for data
/// only.
pub fn relay_step(event: Option<Inbound>, decoded: Option<Vec<u8>>) -> (r: RelayStep)
    ensures
        r == relayed(event, decoded),
{
    match event {
        Some(Inbound::Data(_)) => match decoded {
            Some(bytes) => RelayStep::Write(bytes),
            None => RelayStep::Stop,
        },
        Some(Inbound::Opened) => RelayStep::Ignore,
        _ => RelayStep::Stop,
    }
}

/// What an open stream does with bytes of the local client.
#[derive(Debug)]
pub enum ForwardStep {
    /// Sends a frame to the server.
    Send(Vec<u8>),
    /// Ends the stream.
    Stop,
}

/// What an open stream does after reading from the local client: `read` is the number of
/// bytes, none where the client has closed its side, or nothing where reading failed.
///
/// `encoded` is the bytes behind their place in the stream, or nothing where there is no
/// further place; it matters where bytes were read only.
pub fn forward_step(stream_id: u64, read: Option<usize>, encoded: Option<Vec<u8>>) -> (r:
    ForwardStep)
    ensures
        forwarded(stream_id, read, encoded, r),
{
    match (read, encoded) {
        (Some(count), Some(bytes)) => {
            if count == 0 {
                ForwardStep::Stop
            } else {
                ForwardStep::Send(encode_frame(DATA, stream_id, bytes.as_slice()))
            }
        },
        _ => ForwardStep::Stop,
    }
}

/// The SOCKS5 listener serves this machine only.
pub fn bind_allowed(ip: IpAddress) -> (r: bool)
    ensures
        r == ip.is_loopback_spec(),
{
    ip.is_loopback()
}

// ---------------------------------------------------------------------------
// The handshake
// ---------------------------------------------------------------------------

/// Why a handshake failed.
#[derive(Clone, Copy, Debug, PartialEq, Eq, Structural)]
pub enum HandshakeError {
    /// Not a SOCKS5 greeting, or one that offers no method.
    InvalidGreeting,
    /// The client does not offer to go without authentication.
    AuthRequired,
    /// Something other than CONNECT was asked for.
    NotConnect,
    /// The domain name has no character.
    EmptyDomain,
    /// The address type is unknown.
    UnsupportedAddress,
}

impl HandshakeError {
    /// The error in words.
    pub fn message(&self) -> (r: &'static str)
        ensures
            r@ == handshake_error_words(*self),
    {
        match self {
            HandshakeError::InvalidGreeting => "invalid SOCKS5 greeting",
            HandshakeError::AuthRequired => "SOCKS5 client does not support no-auth mode",
            HandshakeError::NotConnect => "only SOCKS5 CONNECT is supported",
            HandshakeError::EmptyDomain => "empty SOCKS5 domain",
            HandshakeError::UnsupportedAddress => "unsupported SOCKS5 address type",
        }
    }
}

/// How far a handshake is.
#[derive(Debug)]
pub enum HandshakeState {
    /// This many more bytes are read next.
    Need(usize),
    /// The target: address type, address and port as the client sent them.
    Target(Vec<u8>),
    /// The connection is closed.
    Failed(HandshakeError),
}

/// A handshake after some bytes: all that is answered so far, and what comes next.
#[derive(Debug)]
pub struct Handshake {
    pub replies: Vec<u8>,
    pub state: HandshakeState,
}

/// A SOCKS5 reply with no bound address.
pub open spec fn reply(code: u8) -> Seq<u8> {
    seq![5u8, code, 0, 1, 0, 0, 0, 0, 0, 0]
}

/// A SOCKS5 reply with no bound address.
pub fn reply_bytes(code: u8) -> (r: Vec<u8>)
    ensures
        r@ == reply(code),
{
    let mut r: Vec<u8> = Vec::new();
    r.push(5);
    r.push(code);
    r.push(0);
    r.push(1);
    r.push(0);
    r.push(0);
    r.push(0);
    r.push(0);
    r.push(0);
    r.push(0);
    proof {
        assert(r@ =~= reply(code));
    }
    r
}

/// The outcome of the request part: what is answered, and the state. `at` is where
/// the request begins.
pub open spec fn request_state(input: Seq<u8>, at: int) -> (Seq<u8>, HandshakeView) {
    let n = input.len() - at;
    if n < 4 {
        (Seq::empty(), HandshakeView::Need((4 - n) as nat))
    } else if input[at] != 5 || input[at + 1] != 1 || input[at + 2] != 0 {
        (reply(7), HandshakeView::Failed(HandshakeError::NotConnect))
    } else {
        let kind = input[at + 3];
        if kind == 1 || kind == 4 {
            let total: int = if kind == 1 {
                10
            } else {
                22
            };
            if n < total {
                (Seq::empty(), HandshakeView::Need((total - n) as nat))
            } else {
                (Seq::empty(), HandshakeView::Target(input.subrange(at + 3, at + total)))
            }
        } else if kind == 3 {
            if n < 5 {
                (Seq::empty(), HandshakeView::Need(1))
            } else if input[at + 4] == 0 {
                (Seq::empty(), HandshakeView::Failed(HandshakeError::EmptyDomain))
            } else {
                let total = 5 + input[at + 4] as int + 2;
                if n < total {
                    (Seq::empty(), HandshakeView::Need((total - n) as nat))
                } else {
                    (Seq::empty(), HandshakeView::Target(input.subrange(at + 3, at + total)))
                }
            }
        } else {
            (reply(8), HandshakeView::Failed(HandshakeError::UnsupportedAddress))
        }
    }
}

/// A handshake state with the target as a sequence.
pub ghost enum HandshakeView {
    Need(nat),
    Target(Seq<u8>),
    Failed(HandshakeError),
}

impl HandshakeState {
    /// The state with the target as a sequence.
    pub open spec fn view(self) -> HandshakeView {
        match self {
            HandshakeState::Need(n) => HandshakeView::Need(n as nat),
            HandshakeState::Target(t) => HandshakeView::Target(t@),
            HandshakeState::Failed(e) => HandshakeView::Failed(e),
        }
    }
}

/// The SOCKS5 handshake over all bytes that were read so far: a greeting that offers
/// to go without authentication, then a CONNECT request.
pub open spec fn handshake_state(input: Seq<u8>) -> (Seq<u8>, HandshakeView) {
    let n = input.len();
    if n < 2 {
        (Seq::empty(), HandshakeView::Need((2 - n) as nat))
    } else if input[0] != 5 || input[1] == 0 {
        (Seq::empty(), HandshakeView::Failed(HandshakeError::InvalidGreeting))
    } else {
        let at = 2 + input[1] as int;
        if n < at {
            (Seq::empty(), HandshakeView::Need((at - n) as nat))
        } else if !input.subrange(2, at).contains(0u8) {
            (seq![5u8, 0xff], HandshakeView::Failed(HandshakeError::AuthRequired))
        } else {
            let (more, state) = request_state(input, at);
            (seq![5u8, 0] + more, state)
        }
    }
}

fn request_step(input: &[u8], at: usize) -> (r: Handshake)
    requires
        at <= input@.len(),
        at <= 257,
    ensures
        (r.replies@, r.state@) == request_state(input@, at as int),
{
    let none: Vec<u8> = Vec::new();
    proof {
        assert(none@ =~= Seq::<u8>::empty());
    }
    let n: usize = input.len() - at;
    if n < 4 {
        return Handshake { replies: none, state: HandshakeState::Need(4 - n) };
    }
    if input[at] != 5 || input[at + 1] != 1 || input[at + 2] != 0 {
        return Handshake {
            replies: reply_bytes(7),
            state: HandshakeState::Failed(HandshakeError::NotConnect),
        };
    }
    let kind: u8 = input[at + 3];
    let total: usize = if kind == 1 {
        10
    } else if kind == 4 {
        22
    } else if kind == 3 {
        if n < 5 {
            return Handshake { replies: none, state: HandshakeState::Need(1) };
        }
        if input[at + 4] == 0 {
            return Handshake {
                replies: none,
                state: HandshakeState::Failed(HandshakeError::EmptyDomain),
            };
        }
        5 + input[at + 4] as usize + 2
    } else {
        return Handshake {
            replies: reply_bytes(8),
            state: HandshakeState::Failed(HandshakeError::UnsupportedAddress),
        };
    };
    if n < total {
        return Handshake { replies: none, state: HandshakeState::Need(total - n) };
    }
    Handshake {
        replies: none,
        state: HandshakeState::Target(sub_bytes(input, at + 3, at + total)),
    }
}

/// The state of a handshake after the bytes read so far. Reading exactly as many
/// bytes as are needed next never takes a byte of the stream that follows.
pub fn read_handshake(input: &[u8]) -> (r: Handshake)
    ensures
        (r.replies@, r.state@) == handshake_state(input@),
{
    let mut replies: Vec<u8> = Vec::new();
    proof {
        assert(replies@ =~= Seq::<u8>::empty());
    }
    let n: usize = input.len();
    if n < 2 {
        return Handshake { replies, state: HandshakeState::Need(2 - n) };
    }
    if input[0] != 5 || input[1] == 0 {
        return Handshake {
            replies,
            state: HandshakeState::Failed(HandshakeError::InvalidGreeting),
        };
    }
    let at: usize = 2 + input[1] as usize;
    if n < at {
        return Handshake { replies, state: HandshakeState::Need(at - n) };
    }
    let mut offered = false;
    let mut i: usize = 2;
    while i < at
        invariant
            2 <= i <= at <= input@.len(),
            offered == exists|j: int| 2 <= j < i && #[trigger] input@[j] == 0,
        decreases at - i,
    {
        if input[i] == 0 {
            offered = true;
        }
        i = i + 1;
    }
    proof {
        let m = input@.subrange(2, at as int);
        if offered {
            let j = choose|j: int| 2 <= j < i && #[trigger] input@[j] == 0;
            assert(m[j - 2] == 0);
            assert(m.contains(0u8));
        } else if m.contains(0u8) {
            let j = choose|j: int| 0 <= j < m.len() && m[j] == 0;
            assert(input@[j + 2] == 0);
        }
    }
    replies.push(5);
    if !offered {
        replies.push(0xff);
        proof {
            assert(replies@ =~= seq![5u8, 0xff]);
        }
        return Handshake {
            replies,
            state: HandshakeState::Failed(HandshakeError::AuthRequired),
        };
    }
    replies.push(0);
    let step = request_step(input, at);
    push_bytes(&mut replies, step.replies.as_slice());
    proof {
        assert(replies@ =~= seq![5u8, 0] + step.replies@);
    }
    Handshake { replies, state: step.state }
}

/// A handshake that needs more bytes has not decided anything: with one more of the
/// needed bytes, the answers so far stay a prefix of the answers.
pub proof fn law_handshake_replies_grow(input: Seq<u8>, byte: u8)
    requires
        handshake_state(input).1 is Need,
    ensures
        has_prefix(handshake_state(input.push(byte)).0, handshake_state(input).0),
{
    let next = input.push(byte);
    let a = handshake_state(input).0;
    let b = handshake_state(next).0;
    if input.len() >= 2 && input[0] == 5 && input[1] != 0 && input.len() >= 2 + input[1] as int {
        let at = 2 + input[1] as int;
        assert(input.subrange(2, at) =~= next.subrange(2, at));
        assert(a =~= seq![5u8, 0]);
        assert(b.take(2) =~= a);
    } else {
        assert(a =~= Seq::<u8>::empty());
        assert(b.take(0) =~= a);
    }
}

/// Once a handshake has an outcome, it is for exactly the bytes that were needed: no
/// shorter input has one.
pub proof fn law_handshake_reads_no_further(input: Seq<u8>, k: nat)
    requires
        k < input.len(),
        handshake_state(input.take(k as int)).1 is Need,
    ensures
        handshake_state(input.take(k as int)).1->Need_0 >= 1,
        handshake_state(input).1 is Target ==> k + handshake_state(
            input.take(k as int),
        ).1->Need_0 <= input.len(),
{
    let p = input.take(k as int);
    if p.len() >= 2 && p[0] == 5 && p[1] != 0 && p.len() >= 2 + p[1] as int {
        let at = 2 + p[1] as int;
        assert(input.subrange(2, at) =~= p.subrange(2, at));
        if p.len() - at >= 4 {
            assert(p[at] == input[at] && p[at + 1] == input[at + 1] && p[at + 2] == input[at + 2]
                && p[at + 3] == input[at + 3]);
        }
    }
}

/// Only CONNECT is served: a handshake that yields a target offered to go without
/// authentication and asked for a connection.
pub proof fn law_only_connect_is_served(input: Seq<u8>)
    requires
        handshake_state(input).1 is Target,
    ensures
        ({
            let at = 2 + input[1] as int;
            &&& input.subrange(2, at).contains(0u8)
            &&& input[at] == 5 && input[at + 1] == 1 && input[at + 2] == 0
        }),
{
}

/// Any other command, a UDP relay among them, is answered with code 7 and refused.
pub proof fn law_other_commands_are_refused(input: Seq<u8>)
    requires
        input.len() >= 2,
        input[0] == 5,
        input[1] != 0,
        input.len() >= 2 + input[1] as int + 4,
        input.subrange(2, 2 + input[1] as int).contains(0u8),
        input[2 + input[1] as int + 1] != 1,
    ensures
        handshake_state(input) == (
            seq![5u8, 0] + reply(7),
            HandshakeView::Failed(HandshakeError::NotConnect),
        ),
{
}

/// A greeting that offers to go without authentication, followed by a request to connect:
/// the target is the address as the request holds it, type, octets or name, and port, byte
/// for byte and no further. With one byte less, one byte is still needed, and no shorter
/// beginning has an outcome.
pub proof fn law_connect_yields_its_target(
    methods: Seq<u8>,
    kind: u8,
    address: Seq<u8>,
    extra: Seq<u8>,
)
    requires
        1 <= methods.len() <= 255,
        methods.contains(0u8),
        ({
            ||| kind == 1 && address.len() == 4 + 2
            ||| kind == 4 && address.len() == 16 + 2
            ||| kind == 3 && address.len() >= 1 && address[0] >= 1 && address.len() == 1
                + address[0] + 2
        }),
    ensures
        ({
            let input = seq![5u8, methods.len() as u8] + methods + seq![5u8, 1, 0, kind] + address;
            &&& handshake_state(input) == (
                seq![5u8, 0],
                HandshakeView::Target(seq![kind] + address),
            )
            &&& handshake_state(input + extra) == handshake_state(input)
            &&& handshake_state(input.drop_last()) == (seq![5u8, 0], HandshakeView::Need(1))
            &&& forall|k: int|
                0 <= k < input.len() ==> (#[trigger] handshake_state(input.take(k))).1 is Need
        }),
{
    let input = seq![5u8, methods.len() as u8] + methods + seq![5u8, 1, 0, kind] + address;
    let at = 2 + methods.len() as int;
    let whole = input + extra;
    assert(input.subrange(2, at) =~= methods);
    assert(whole.subrange(2, at) =~= methods);
    assert(input[at] == 5 && input[at + 1] == 1 && input[at + 2] == 0 && input[at + 3] == kind);
    assert(whole[at] == 5 && whole[at + 1] == 1 && whole[at + 2] == 0 && whole[at + 3] == kind);
    assert(input[at + 4] == address[0]);
    assert(whole[at + 4] == address[0]);
    assert(input.subrange(at + 3, input.len() as int) =~= seq![kind] + address);
    assert(whole.subrange(at + 3, input.len() as int) =~= seq![kind] + address);
    assert(seq![5u8, 0] + Seq::<u8>::empty() =~= seq![5u8, 0]);
    let less = input.drop_last();
    assert(less.subrange(2, at) =~= methods);
    assert(less[at] == 5 && less[at + 1] == 1 && less[at + 2] == 0 && less[at + 3] == kind);
    if kind == 3 {
        assert(less[at + 4] == address[0]);
    }
    assert forall|k: int| 0 <= k < input.len() implies (#[trigger] handshake_state(
        input.take(k),
    )).1 is Need by {
        let p = input.take(k);
        if k >= at {
            assert(p.subrange(2, at) =~= methods);
            if k >= at + 4 {
                assert(p[at] == 5 && p[at + 1] == 1 && p[at + 2] == 0 && p[at + 3] == kind);
            }
        }
    }
}

/// What a handshake passes on is what the other end reads: for every address or name in
/// its wire form, the target is that wire form.
pub proof fn law_connect_target_is_the_wire_form(methods: Seq<u8>, t: TargetView)
    requires
        1 <= methods.len() <= 255,
        methods.contains(0u8),
        t matches TargetView::Domain(host, _) ==> 1 <= encode_utf8(host).len() <= 255,
    ensures
        handshake_state(
            seq![5u8, methods.len() as u8] + methods + seq![5u8, 1, 0] + target_bytes(t),
        ) == (seq![5u8, 0], HandshakeView::Target(target_bytes(t))),
{
    let w = target_bytes(t);
    match t {
        TargetView::Address(e) => {
            lemma_socks_address_len(e);
        },
        TargetView::Domain(host, port) => {
            lemma_be_bytes_len(port as nat, 2);
        },
    }
    let kind = w[0];
    let address = w.skip(1);
    assert(w =~= seq![kind] + address);
    law_connect_yields_its_target(methods, kind, address, Seq::empty());
    assert(seq![5u8, methods.len() as u8] + methods + seq![5u8, 1, 0] + w =~= seq![
        5u8,
        methods.len() as u8,
    ] + methods + seq![5u8, 1, 0, kind] + address);
}

/// How the other handshakes end: a greeting of another version or without methods is
/// invalid, one that insists on authentication is answered with 255, an unknown type of
/// address with code 8, and an empty name not at all.
pub proof fn law_other_handshakes_fail(input: Seq<u8>)
    ensures
        input.len() >= 2 && (input[0] != 5 || input[1] == 0) ==> handshake_state(input) == (
            Seq::<u8>::empty(),
            HandshakeView::Failed(HandshakeError::InvalidGreeting),
        ),
        input.len() >= 2 && input[0] == 5 && input[1] != 0 && input.len() >= 2 + input[1]
            && !input.subrange(2, 2 + input[1] as int).contains(0u8) ==> handshake_state(input)
            == (seq![5u8, 255], HandshakeView::Failed(HandshakeError::AuthRequired)),
        input.len() >= 2 && input[0] == 5 && input[1] != 0 && input.len() >= 2 + input[1] + 4
            && input.subrange(2, 2 + input[1] as int).contains(0u8) && input[2 + input[1] as int]
            == 5 && input[3 + input[1] as int] == 1 && input[4 + input[1] as int] == 0 ==> {
            let kind = input[5 + input[1] as int];
            &&& kind != 1 && kind != 3 && kind != 4 ==> handshake_state(input) == (
                seq![5u8, 0, 5, 8, 0, 1, 0, 0, 0, 0, 0, 0],
                HandshakeView::Failed(HandshakeError::UnsupportedAddress),
            )
            &&& kind == 3 && input.len() >= 2 + input[1] + 5 && input[6 + input[1] as int] == 0
                ==> handshake_state(input) == (
                seq![5u8, 0],
                HandshakeView::Failed(HandshakeError::EmptyDomain),
            )
        },
{
    assert(seq![5u8, 0] + reply(8) =~= seq![5u8, 0, 5, 8, 0, 1, 0, 0, 0, 0, 0, 0]);
    assert(seq![5u8, 0] + Seq::<u8>::empty() =~= seq![5u8, 0]);
}

/// Every frame from the other end means what its kind says: only data carries bytes, all
/// of them, and data that no packet can hold means nothing.
pub proof fn law_events_follow_frames(kind: u8, payload: Seq<u8>, event: Option<Inbound>)
    requires
        is_event(kind, payload, event),
    ensures
        event == Some(Inbound::Opened) <==> kind == 2,
        event == Some(Inbound::Closed) <==> kind == 5,
        event matches Some(Inbound::Error(code)) ==> kind == 3 && (payload.len() > 0 ==> code
            == payload[0]) && (payload.len() == 0 ==> code == 1),
        event matches Some(Inbound::Data(data)) ==> kind == 4 && data@ == payload,
        kind == 3 ==> event matches Some(Inbound::Error(_)),
        kind == 4 && payload.len() <= 2008 ==> event matches Some(Inbound::Data(_)),
        kind == 4 && payload.len() > 2008 ==> event is None,
        kind == 0 || kind == 1 || kind > 5 ==> event is None,
{
}

/// Frames begin with six letters of their own: C, S, Q, P, X and the version 2.
pub proof fn law_frames_begin_with_their_letters(kind: u8, stream_id: u64, payload: Seq<u8>)
    ensures
        ({
            let f = frame_bytes(magic(), kind, stream_id, payload);
            &&& f[0] == 67 && f[1] == 83 && f[2] == 81 && f[3] == 80 && f[4] == 88 && f[5] == 50
            &&& f[6] == kind
            &&& be_nat(f.subrange(7, 15)) == stream_id
            &&& f.skip(15) == payload
        }),
{
    lemma_pow256();
    lemma_be_nat_of_bytes(stream_id as nat, 8);
    let f = frame_bytes(magic(), kind, stream_id, payload);
    assert(f.subrange(7, 15) =~= be_bytes(stream_id as nat, 8));
    assert(f.skip(15) =~= payload);
}

/// The reply to an open request for what came back.
pub open spec fn reply_to(event: Option<Inbound>) -> OpenReply {
    match event {
        Some(Inbound::Opened) => OpenReply { code: 0, proceed: true },
        Some(Inbound::Error(code)) => OpenReply { code, proceed: false },
        _ => OpenReply { code: 4, proceed: false },
    }
}

/// A stream goes on exactly where the server opened it, which is answered with code 0; the
/// server's own code is passed on, and anything else means that the host was not reached.
pub proof fn law_replies_pass_the_code_on(event: Option<Inbound>, code: u8)
    ensures
        reply_to(event).proceed <==> event == Some(Inbound::Opened),
        reply_to(Some(Inbound::Opened)).code == 0,
        reply_to(Some(Inbound::Error(code))).code == code,
        event is None || event == Some(Inbound::Closed) ==> reply_to(event).code == 4,
{
}

/// What an open stream does with an event.
pub open spec fn relayed(event: Option<Inbound>, decoded: Option<Vec<u8>>) -> RelayStep {
    match event {
        Some(Inbound::Data(_)) => match decoded {
            Some(bytes) => RelayStep::Write(bytes),
            None => RelayStep::Stop,
        },
        Some(Inbound::Opened) => RelayStep::Ignore,
        _ => RelayStep::Stop,
    }
}

/// Data in its place is written out, data out of its place ends the stream, and so does
/// whatever is neither data nor a repeated opening.
pub proof fn law_relays_write_data_in_its_place(data: Vec<u8>, bytes: Vec<u8>, code: u8)
    ensures
        relayed(Some(Inbound::Data(data)), Some(bytes)) == RelayStep::Write(bytes),
        relayed(Some(Inbound::Data(data)), None) is Stop,
        relayed(Some(Inbound::Opened), None) is Ignore,
        relayed(Some(Inbound::Closed), None) is Stop,
        relayed(Some(Inbound::Error(code)), None) is Stop,
        relayed(None, None) is Stop,
{
}

/// What an open stream does after reading from the local client.
pub open spec fn forwarded(
    stream_id: u64,
    read: Option<usize>,
    encoded: Option<Vec<u8>>,
    r: ForwardStep,
) -> bool {
    match (read, encoded) {
        (Some(count), Some(bytes)) => if count == 0 {
            r is Stop
        } else {
            r is Send && r->Send_0@ == frame_bytes(magic(), DATA, stream_id, bytes@)
        },
        _ => r is Stop,
    }
}

/// What the local client sends goes out as data of its stream, unchanged; its end, a fault
/// and a stream without further places end it.
pub proof fn law_local_bytes_go_out_as_data(
    stream_id: u64,
    count: usize,
    bytes: Vec<u8>,
    r: ForwardStep,
)
    ensures
        count > 0 && forwarded(stream_id, Some(count), Some(bytes), r) ==> (
        r matches ForwardStep::Send(f) && f@ == frame_bytes(magic(), 4, stream_id, bytes@)),
        forwarded(stream_id, Some(0), Some(bytes), r) ==> r is Stop,
        forwarded(stream_id, None, Some(bytes), r) ==> r is Stop,
        forwarded(stream_id, Some(count), None, r) ==> r is Stop,
{
}

/// The number that a stream gets at a count.
pub open spec fn id_for(counter: u64) -> u64 {
    if counter == 0 {
        1
    } else {
        counter
    }
}

/// The count after a number was given.
pub open spec fn counter_after(counter: u64) -> u64 {
    if counter == u64::MAX {
        0
    } else {
        (counter + 1) as u64
    }
}

/// No stream has number zero, and streams that follow each other have different numbers,
/// counted one by one until they start over.
pub proof fn law_stream_numbers_follow_each_other(counter: u64)
    ensures
        id_for(counter) != 0,
        counter > 0 ==> id_for(counter) == counter,
        0 < counter < u64::MAX ==> id_for(counter_after(counter)) == id_for(counter) + 1,
        counter == u64::MAX ==> id_for(counter_after(counter)) == 1,
{
}

/// An error in words.
pub open spec fn handshake_error_words(e: HandshakeError) -> Seq<char> {
    match e {
        HandshakeError::InvalidGreeting => "invalid SOCKS5 greeting"@,
        HandshakeError::AuthRequired => "SOCKS5 client does not support no-auth mode"@,
        HandshakeError::NotConnect => "only SOCKS5 CONNECT is supported"@,
        HandshakeError::EmptyDomain => "empty SOCKS5 domain"@,
        HandshakeError::UnsupportedAddress => "unsupported SOCKS5 address type"@,
    }
}

/// Every error has words of its own.
pub proof fn law_handshake_errors_have_words(a: HandshakeError, b: HandshakeError)
    ensures
        handshake_error_words(a) == handshake_error_words(b) <==> a == b,
        a is InvalidGreeting <==> handshake_error_words(a) == "invalid SOCKS5 greeting"@,
        a is AuthRequired <==> handshake_error_words(a) == "SOCKS5 client does not support no-auth mode"@,
        a is NotConnect <==> handshake_error_words(a) == "only SOCKS5 CONNECT is supported"@,
        a is EmptyDomain <==> handshake_error_words(a) == "empty SOCKS5 domain"@,
        a is UnsupportedAddress <==> handshake_error_words(a) == "unsupported SOCKS5 address type"@,
{
    reveal_strlit("invalid SOCKS5 greeting");
    reveal_strlit("SOCKS5 client does not support no-auth mode");
    reveal_strlit("only SOCKS5 CONNECT is supported");
    reveal_strlit("empty SOCKS5 domain");
    reveal_strlit("unsupported SOCKS5 address type");
    assert("invalid SOCKS5 greeting"@.len() != "SOCKS5 client does not support no-auth mode"@.len());
    assert("invalid SOCKS5 greeting"@.len() != "only SOCKS5 CONNECT is supported"@.len());
    assert("invalid SOCKS5 greeting"@.len() != "empty SOCKS5 domain"@.len());
    assert("invalid SOCKS5 greeting"@.len() != "unsupported SOCKS5 address type"@.len());
    assert("SOCKS5 client does not support no-auth mode"@.len() != "only SOCKS5 CONNECT is supported"@.len());
    assert("SOCKS5 client does not support no-auth mode"@.len() != "empty SOCKS5 domain"@.len());
    assert("SOCKS5 client does not support no-auth mode"@.len() != "unsupported SOCKS5 address type"@.len());
    assert("only SOCKS5 CONNECT is supported"@.len() != "empty SOCKS5 domain"@.len());
    assert("only SOCKS5 CONNECT is supported"@.len() != "unsupported SOCKS5 address type"@.len());
    assert("empty SOCKS5 domain"@.len() != "unsupported SOCKS5 address type"@.len());
}

/// A handshake asks for no more than it needs: while fewer bytes have come than were asked
/// for, whatever they are, exactly the rest is asked for.
pub proof fn law_handshake_asks_for_the_rest(input: Seq<u8>, more: Seq<u8>)
    requires
        handshake_state(input).1 matches HandshakeView::Need(n) && more.len() < n,
    ensures
        handshake_state(input).1 matches HandshakeView::Need(n) && handshake_state(input + more).1
            == HandshakeView::Need((n - more.len()) as nat),
{
    let all = input + more;
    assert(forall|k: int| 0 <= k < input.len() ==> all[k] == input[k]);
    if input.len() >= 2 {
        let at = 2 + input[1] as int;
        if input.len() >= at {
            assert(all.subrange(2, at) =~= input.subrange(2, at));
        }
    }
}

/// A handshake begins with two bytes, and a greeting is as long as its second byte says.
pub proof fn law_greetings_are_counted(input: Seq<u8>)
    ensures
        input.len() < 2 ==> handshake_state(input).1 == HandshakeView::Need(
            (2 - input.len()) as nat,
        ),
        2 <= input.len() < 2 + input[1] && input[0] == 5 && input[1] != 0 ==> handshake_state(
            input,
        ).1 == HandshakeView::Need((2 + input[1] - input.len()) as nat),
{
}

} // verus!
