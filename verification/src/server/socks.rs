//! The SOCKS5 dialogue with the local proxy, and its UDP datagrams.
use vstd::prelude::*;
use crate::addr::{Endpoint, IpAddress, Ipv4, Ipv6, ipv4_text, law_ipv4_text_injective};
use crate::octets::{
    be_bytes, be_nat, lemma_be_bytes_len, lemma_be_bytes_of_nat, lemma_be_nat_of_bytes,
    lemma_pow256, push_be, push_bytes, read_be,
};
use crate::server::model::LocalProxyProfile;
use crate::text::{chars_of, has_control, text_has_control};
use vstd::utf8::{decode_utf8, encode_utf8, valid_utf8};
use vstd::slice::slice_subrange;

verus! {

/// Asks for a connection.
pub const CONNECT: u8 = 1;

/// Asks for a UDP relay.
pub const UDP_ASSOCIATE: u8 = 3;

/// Longest user name or password, in bytes.
pub const MAX_CREDENTIAL_BYTES: usize = 255;

/// Why a proxy profile cannot be used.
#[derive(Clone, Copy, Debug, PartialEq, Eq, Structural)]
pub enum ProfileError {
    /// The host is no IPv4 address.
    HostNotIpv4,
    /// The host is no address of a single machine.
    HostNotUnicast,
    /// The port is zero.
    Port,
    /// The user name or the password is too long.
    CredentialsTooLong,
    /// There is a password without a user name.
    UsernameMissing,
    /// The user name or the password holds a control character.
    ControlCharacter,
}

impl ProfileError {
    /// The error in words.
    pub fn message(&self) -> (r: &'static str)
        ensures
            r@ == profile_error_words(*self),
    {
        match self {
            ProfileError::HostNotIpv4 => "SOCKS5 host must be an IPv4 address",
            ProfileError::HostNotUnicast => "SOCKS5 host must be a unicast IPv4 address",
            ProfileError::Port => "SOCKS5 port must be in range 1-65535",
            ProfileError::CredentialsTooLong => "SOCKS5 username and password must not exceed 255 bytes",
            ProfileError::UsernameMissing => "SOCKS5 username is required when a password is set",
            ProfileError::ControlCharacter => "SOCKS5 credentials must not contain control characters",
        }
    }
}

/// An address that no single machine has.
pub open spec fn not_unicast(ip: Ipv4) -> bool {
    ip.is_unspecified_spec() || ip.is_multicast_spec() || ip.is_broadcast_spec()
}

/// Whether `r` is the verdict on a profile, the checks made in their order.
pub open spec fn profile_verdict(p: LocalProxyProfile, r: Result<(), ProfileError>) -> bool {
    if forall|ip: Ipv4| p.host@ != #[trigger] ipv4_text(ip) {
        r == Err::<(), ProfileError>(ProfileError::HostNotIpv4)
    } else if exists|ip: Ipv4| p.host@ == #[trigger] ipv4_text(ip) && not_unicast(ip) {
        r == Err::<(), ProfileError>(ProfileError::HostNotUnicast)
    } else if p.port == 0 {
        r == Err::<(), ProfileError>(ProfileError::Port)
    } else if encode_utf8(p.username@).len() > MAX_CREDENTIAL_BYTES || encode_utf8(
        p.password@,
    ).len() > MAX_CREDENTIAL_BYTES {
        r == Err::<(), ProfileError>(ProfileError::CredentialsTooLong)
    } else if p.username@.len() == 0 && p.password@.len() > 0 {
        r == Err::<(), ProfileError>(ProfileError::UsernameMissing)
    } else if has_control(p.username@) || has_control(p.password@) {
        r == Err::<(), ProfileError>(ProfileError::ControlCharacter)
    } else {
        r is Ok
    }
}

/// Checks a proxy profile.
pub fn validate_config(config: &LocalProxyProfile) -> (r: Result<(), ProfileError>)
    ensures
        profile_verdict(*config, r),
{
    let host = chars_of(config.host.as_str());
    let ip = match Ipv4::parse(host.as_slice()) {
        Some(ip) => ip,
        None => {
            return Err(ProfileError::HostNotIpv4);
        },
    };
    proof {
        assert(config.host@ == ipv4_text(ip));
        assert forall|other: Ipv4| config.host@ == #[trigger] ipv4_text(other) implies other
            == ip by {
            law_ipv4_text_injective(other, ip);
        }
    }
    if ip.is_unspecified() || (224 <= ip.a && ip.a <= 239) || (ip.a == 255 && ip.b == 255 && ip.c
        == 255 && ip.d == 255) {
        return Err(ProfileError::HostNotUnicast);
    }
    if config.port == 0 {
        return Err(ProfileError::Port);
    }
    if config.username.as_str().as_bytes().len() > MAX_CREDENTIAL_BYTES
        || config.password.as_str().as_bytes().len() > MAX_CREDENTIAL_BYTES {
        return Err(ProfileError::CredentialsTooLong);
    }
    let username = chars_of(config.username.as_str());
    let password = chars_of(config.password.as_str());
    if username.len() == 0 && password.len() > 0 {
        return Err(ProfileError::UsernameMissing);
    }
    if text_has_control(username.as_slice()) || text_has_control(password.as_slice()) {
        return Err(ProfileError::ControlCharacter);
    }
    Ok(())
}

// ---------------------------------------------------------------------------
// Addresses on the wire
// ---------------------------------------------------------------------------

/// The bytes of an address.
pub open spec fn ip_bytes(ip: IpAddress) -> Seq<u8> {
    match ip {
        IpAddress::V4(v4) => v4.octets_spec(),
        IpAddress::V6(v6) => be_bytes(v6.hi as nat, 8) + be_bytes(v6.lo as nat, 8),
    }
}

/// The wire form of an address with its port: type, address, port.
pub open spec fn socks_address(e: Endpoint) -> Seq<u8> {
    seq![
        match e.ip {
            IpAddress::V4(_) => 1u8,
            IpAddress::V6(_) => 4u8,
        },
    ] + ip_bytes(e.ip) + be_bytes(e.port as nat, 2)
}

/// Appends an address with its port.
pub fn append_socks_address(target: &mut Vec<u8>, address: Endpoint)
    ensures
        final(target)@ == old(target)@ + socks_address(address),
{
    match address.ip {
        IpAddress::V4(ip) => {
            target.push(1);
            target.push(ip.a);
            target.push(ip.b);
            target.push(ip.c);
            target.push(ip.d);
            proof {
                assert(target@ =~= old(target)@ + seq![1u8] + ip.octets_spec());
            }
        },
        IpAddress::V6(ip) => {
            target.push(4);
            push_be(target, ip.hi, 8);
            push_be(target, ip.lo, 8);
            proof {
                assert(target@ =~= old(target)@ + seq![4u8] + (be_bytes(ip.hi as nat, 8)
                    + be_bytes(ip.lo as nat, 8)));
            }
        },
    }
    push_be(target, address.port as u64, 2);
    proof {
        assert(target@ =~= old(target)@ + socks_address(address));
    }
}

/// The length of a wire form.
pub proof fn lemma_socks_address_len(e: Endpoint)
    ensures
        socks_address(e).len() == (match e.ip {
            IpAddress::V4(_) => 7nat,
            IpAddress::V6(_) => 19nat,
        }),
{
    lemma_be_bytes_len(e.port as nat, 2);
    match e.ip {
        IpAddress::V6(v6) => {
            lemma_be_bytes_len(v6.hi as nat, 8);
            lemma_be_bytes_len(v6.lo as nat, 8);
        },
        _ => {},
    }
}

/// Reads an IPv4 address with its port.
pub fn read_ipv4_endpoint(s: &[u8], at: usize) -> (r: Endpoint)
    requires
        at + 6 <= s@.len(),
    ensures
        r.ip is V4,
        socks_address(r) == seq![1u8] + s@.subrange(at as int, at + 6),
{
    proof {
        assert(s.len() == s@.len());
    }
    let ip = Ipv4 { a: s[at], b: s[at + 1], c: s[at + 2], d: s[at + 3] };
    let raw: u64 = read_be(s, at + 4, at + 6);
    proof {
        let p = s@.subrange(at + 4, at + 6);
        lemma_be_bytes_of_nat(p);
        lemma_pow256();
        assert(s@.subrange(at as int, at + 6) =~= ip.octets_spec() + p);
        assert(seq![1u8] + s@.subrange(at as int, at + 6) =~= seq![1u8] + ip.octets_spec() + p);
    }
    Endpoint { ip: IpAddress::V4(ip), port: raw as u16 }
}

/// Reads an IPv6 address with its port.
pub fn read_ipv6_endpoint(s: &[u8], at: usize) -> (r: Endpoint)
    requires
        at + 18 <= s@.len(),
    ensures
        r.ip is V6,
        socks_address(r) == seq![4u8] + s@.subrange(at as int, at + 18),
{
    proof {
        assert(s.len() == s@.len());
    }
    let hi: u64 = read_be(s, at, at + 8);
    let lo: u64 = read_be(s, at + 8, at + 16);
    let raw: u64 = read_be(s, at + 16, at + 18);
    proof {
        let h = s@.subrange(at as int, at + 8);
        let l = s@.subrange(at + 8, at + 16);
        let p = s@.subrange(at + 16, at + 18);
        lemma_be_bytes_of_nat(h);
        lemma_be_bytes_of_nat(l);
        lemma_be_bytes_of_nat(p);
        lemma_pow256();
        assert(seq![4u8] + s@.subrange(at as int, at + 18) =~= seq![4u8] + (h + l) + p);
    }
    Endpoint { ip: IpAddress::V6(Ipv6 { hi, lo }), port: raw as u16 }
}

// ---------------------------------------------------------------------------
// Datagrams
// ---------------------------------------------------------------------------

/// Why a datagram of the proxy was refused.
#[derive(Clone, Copy, Debug, PartialEq, Eq, Structural)]
pub enum UdpResponseError {
    /// Too short, or not an unfragmented datagram.
    Header,
    /// The source is a domain name.
    DomainAddress,
    /// The address type is unknown.
    AddressType(u8),
    /// It ends within the address.
    Short,
}

/// A datagram of the proxy: source and payload.
pub open spec fn udp_datagram(source: Endpoint, payload: Seq<u8>) -> Seq<u8> {
    seq![0u8, 0, 0] + socks_address(source) + payload
}

/// Takes a datagram of the proxy apart.
pub fn socks_udp_response(packet: &[u8]) -> (r: Result<(Endpoint, &[u8]), UdpResponseError>)
    ensures
        response_read(packet@, r),
{
    if packet.len() < 4 || packet[0] != 0 || packet[1] != 0 || packet[2] != 0 {
        return Err(UdpResponseError::Header);
    }
    let kind: u8 = packet[3];
    if kind == 3 {
        return Err(UdpResponseError::DomainAddress);
    }
    if kind != 1 && kind != 4 {
        return Err(UdpResponseError::AddressType(kind));
    }
    let end: usize = if kind == 1 {
        10
    } else {
        22
    };
    if packet.len() < end {
        return Err(UdpResponseError::Short);
    }
    let source = if kind == 1 {
        read_ipv4_endpoint(packet, 4)
    } else {
        read_ipv6_endpoint(packet, 4)
    };
    let payload = slice_subrange(packet, end, packet.len());
    proof {
        assert(packet@ =~= seq![0u8, 0, 0] + (seq![kind] + packet@.subrange(4, end as int))
            + payload@);
    }
    Ok((source, payload))
}

/// The header by which a datagram for an IPv4 destination goes to the proxy.
pub fn udp_request_header(destination: Ipv4, port: u16) -> (r: Vec<u8>)
    ensures
        r@ == udp_datagram((Endpoint { ip: IpAddress::V4(destination), port }), Seq::empty()),
        r@.len() == 10,
{
    let mut r: Vec<u8> = Vec::new();
    r.push(0);
    r.push(0);
    r.push(0);
    let ghost e = Endpoint { ip: IpAddress::V4(destination), port };
    proof {
        assert(r@ =~= seq![0u8, 0, 0]);
        lemma_socks_address_len(e);
    }
    append_socks_address(&mut r, Endpoint { ip: IpAddress::V4(destination), port });
    proof {
        assert(r@ =~= udp_datagram(e, Seq::empty()));
    }
    r
}

/// A datagram determines its source and its payload: taking apart what was put together
/// gives both back.
pub proof fn law_udp_datagram_unique(a: Endpoint, x: Seq<u8>, b: Endpoint, y: Seq<u8>)
    requires
        udp_datagram(a, x) == udp_datagram(b, y),
    ensures
        a == b,
        x == y,
{
    let p = udp_datagram(a, x);
    lemma_socks_address_len(a);
    lemma_socks_address_len(b);
    let sa = socks_address(a);
    let sb = socks_address(b);
    assert(p[3] == sa[0]);
    assert(p[3] == sb[0]);
    let n = sa.len() as int;
    assert(p.subrange(3, 3 + n) =~= sa);
    assert(p.subrange(3, 3 + n) =~= sb);
    assert(p.skip(3 + n) =~= x);
    assert(p.skip(3 + n) =~= y);
    law_socks_address_unique(a, b);
}

/// Different addresses have different wire forms.
pub proof fn law_socks_address_unique(a: Endpoint, b: Endpoint)
    requires
        socks_address(a) == socks_address(b),
    ensures
        a == b,
{
    lemma_pow256();
    let sa = socks_address(a);
    let sb = socks_address(b);
    assert(sa[0] == sb[0]);
    lemma_be_nat_of_bytes(a.port as nat, 2);
    lemma_be_nat_of_bytes(b.port as nat, 2);
    lemma_socks_address_len(a);
    lemma_socks_address_len(b);
    match (a.ip, b.ip) {
        (IpAddress::V4(x), IpAddress::V4(y)) => {
            assert(sa[1] == x.a && sa[2] == x.b && sa[3] == x.c && sa[4] == x.d);
            assert(sb[1] == y.a && sb[2] == y.b && sb[3] == y.c && sb[4] == y.d);
            assert(sa.subrange(5, 7) =~= be_bytes(a.port as nat, 2));
            assert(sb.subrange(5, 7) =~= be_bytes(b.port as nat, 2));
        },
        (IpAddress::V6(x), IpAddress::V6(y)) => {
            lemma_be_nat_of_bytes(x.hi as nat, 8);
            lemma_be_nat_of_bytes(x.lo as nat, 8);
            lemma_be_nat_of_bytes(y.hi as nat, 8);
            lemma_be_nat_of_bytes(y.lo as nat, 8);
            assert(sa.subrange(1, 9) =~= be_bytes(x.hi as nat, 8));
            assert(sb.subrange(1, 9) =~= be_bytes(y.hi as nat, 8));
            assert(sa.subrange(9, 17) =~= be_bytes(x.lo as nat, 8));
            assert(sb.subrange(9, 17) =~= be_bytes(y.lo as nat, 8));
            assert(sa.subrange(17, 19) =~= be_bytes(a.port as nat, 2));
            assert(sb.subrange(17, 19) =~= be_bytes(b.port as nat, 2));
        },
        _ => {},
    }
}

// ---------------------------------------------------------------------------
// The dialogue
// ---------------------------------------------------------------------------

/// Why a command failed.
#[derive(Clone, Copy, Debug, PartialEq, Eq, Structural)]
pub enum SocksError {
    /// The proxy does not accept the way of authentication.
    MethodRejected,
    /// The proxy does not accept the user name and password.
    BadCredentials,
    /// The proxy answered with this reply.
    Reply(u8),
    /// The bound address has an unknown type.
    AddressType(u8),
    /// The bound host name is not text.
    InvalidHost,
}

/// How far a dialogue is.
#[derive(Debug)]
pub enum SocksState {
    /// This many more bytes are read next.
    Need(usize),
    /// The proxy serves at this address.
    Bound(Endpoint),
    /// The proxy serves at this host name, which is still to be resolved.
    BoundHost(String, u16),
    Failed(SocksError),
}

/// A dialogue after some bytes: all that is sent so far, and what comes next.
#[derive(Debug)]
pub struct SocksDialogue {
    pub sent: Vec<u8>,
    pub state: SocksState,
}

/// A state with its text as a sequence.
pub ghost enum SocksView {
    Need(nat),
    Bound(Endpoint),
    BoundHost(Seq<char>, u16),
    Failed(SocksError),
}

impl SocksState {
    /// The state with its text as a sequence.
    pub open spec fn view(self) -> SocksView {
        match self {
            SocksState::Need(n) => SocksView::Need(n as nat),
            SocksState::Bound(e) => SocksView::Bound(e),
            SocksState::BoundHost(h, p) => SocksView::BoundHost(h@, p),
            SocksState::Failed(e) => SocksView::Failed(e),
        }
    }
}

/// The address that counts as bound: the proxy's own where the proxy names none.
pub open spec fn effective_endpoint(bound: Endpoint, proxy: Ipv4) -> Endpoint {
    let unspecified = match bound.ip {
        IpAddress::V4(ip) => ip.is_unspecified_spec(),
        IpAddress::V6(ip) => ip.is_unspecified_spec(),
    };
    if unspecified {
        Endpoint { ip: IpAddress::V4(proxy), port: bound.port }
    } else {
        bound
    }
}

/// The address that counts as bound.
pub fn bound_endpoint(bound: Endpoint, proxy: Ipv4) -> (r: Endpoint)
    ensures
        r == effective_endpoint(bound, proxy),
{
    let unspecified = match bound.ip {
        IpAddress::V4(ip) => ip.is_unspecified(),
        IpAddress::V6(ip) => ip.hi == 0 && ip.lo == 0,
    };
    if unspecified {
        Endpoint { ip: IpAddress::V4(proxy), port: bound.port }
    } else {
        bound
    }
}

/// The way of authentication: none, or user name and password.
pub open spec fn auth_method(username: Seq<char>) -> u8 {
    if username.len() == 0 {
        0
    } else {
        2
    }
}

/// The message that carries user name and password.
pub open spec fn auth_message(username: Seq<u8>, password: Seq<u8>) -> Seq<u8> {
    seq![1u8, (username.len() % 256) as u8] + username + seq![(password.len() % 256) as u8]
        + password
}

/// Whether `state` is what the reply of the proxy from `at` on leads to.
pub open spec fn is_reply_state(
    input: Seq<u8>,
    at: int,
    proxy: Ipv4,
    state: SocksView,
) -> bool {
    let n = input.len() - at;
    if n < 4 {
        state == SocksView::Need((4 - n) as nat)
    } else if input[at] != 5 || input[at + 1] != 0 || input[at + 2] != 0 {
        state == SocksView::Failed(SocksError::Reply(input[at + 1]))
    } else {
        let kind = input[at + 3];
        if kind == 1 || kind == 4 {
            let total: int = if kind == 1 {
                10
            } else {
                22
            };
            if n < total {
                state == SocksView::Need((total - n) as nat)
            } else {
                exists|bound: Endpoint| #[trigger]
                    socks_address(bound) == input.subrange(at + 3, at + total) && state
                        == SocksView::Bound(effective_endpoint(bound, proxy))
            }
        } else if kind == 3 {
            if n < 5 {
                state == SocksView::Need(1)
            } else {
                let len = input[at + 4] as int;
                let total = 5 + len + 2;
                if n < total {
                    state == SocksView::Need((total - n) as nat)
                } else {
                    let host = input.subrange(at + 5, at + 5 + len);
                    let port = be_nat(input.subrange(at + 5 + len, at + 7 + len)) as u16;
                    if valid_utf8(host) {
                        state == SocksView::BoundHost(decode_utf8(host), port)
                    } else {
                        state == SocksView::Failed(SocksError::InvalidHost)
                    }
                }
            }
        } else {
            state == SocksView::Failed(SocksError::AddressType(kind))
        }
    }
}

/// Whether `sent` and `state` are those of a dialogue after the given bytes: greeting,
/// authentication where there is a user name, and the command.
pub open spec fn is_dialogue(
    config: LocalProxyProfile,
    proxy: Ipv4,
    command: u8,
    destination: Endpoint,
    input: Seq<u8>,
    sent: Seq<u8>,
    state: SocksView,
) -> bool {
    let method = auth_method(config.username@);
    let greeting = seq![5u8, 1, method];
    let auth = auth_message(encode_utf8(config.username@), encode_utf8(config.password@));
    let request = seq![5u8, command, 0] + socks_address(destination);
    let n = input.len();
    if n < 2 {
        sent == greeting && state == SocksView::Need((2 - n) as nat)
    } else if input[0] != 5 || input[1] != method {
        sent == greeting && state == SocksView::Failed(SocksError::MethodRejected)
    } else if method == 0 {
        sent == greeting + request && is_reply_state(input, 2, proxy, state)
    } else if n < 4 {
        sent == greeting + auth && state == SocksView::Need((4 - n) as nat)
    } else if input[2] != 1 || input[3] != 0 {
        sent == greeting + auth && state == SocksView::Failed(SocksError::BadCredentials)
    } else {
        sent == greeting + auth + request && is_reply_state(input, 4, proxy, state)
    }
}

fn reply_state(input: &[u8], at: usize, proxy: Ipv4) -> (r: SocksState)
    requires
        at <= 4,
        at <= input@.len(),
    ensures
        is_reply_state(input@, at as int, proxy, r@),
{
    let n: usize = input.len() - at;
    if n < 4 {
        return SocksState::Need(4 - n);
    }
    if input[at] != 5 || input[at + 1] != 0 || input[at + 2] != 0 {
        return SocksState::Failed(SocksError::Reply(input[at + 1]));
    }
    let kind: u8 = input[at + 3];
    if kind == 1 || kind == 4 {
        let total: usize = if kind == 1 {
            10
        } else {
            22
        };
        if n < total {
            return SocksState::Need(total - n);
        }
        let bound = if kind == 1 {
            read_ipv4_endpoint(input, at + 4)
        } else {
            read_ipv6_endpoint(input, at + 4)
        };
        proof {
            assert(input@.subrange(at + 3, at + total) =~= seq![kind] + input@.subrange(
                at + 4,
                at + total,
            ));
            assert(socks_address(bound) == input@.subrange(at + 3, at + total));
        }
        return SocksState::Bound(bound_endpoint(bound, proxy));
    }
    if kind != 3 {
        return SocksState::Failed(SocksError::AddressType(kind));
    }
    if n < 5 {
        return SocksState::Need(1);
    }
    let len: usize = input[at + 4] as usize;
    let total: usize = 5 + len + 2;
    if n < total {
        return SocksState::Need(total - n);
    }
    let host = slice_subrange(input, at + 5, at + 5 + len);
    let raw: u64 = read_be(input, at + 5 + len, at + 7 + len);
    proof {
        lemma_pow256();
        lemma_be_bytes_of_nat(input@.subrange(at + 5 + len, at + 7 + len));
    }
    match core::str::from_utf8(host) {
        Ok(text) => {
            proof {
                vstd::utf8::encode_utf8_decode_utf8(text@);
            }
            SocksState::BoundHost(text.to_owned(), raw as u16)
        },
        Err(_) => SocksState::Failed(SocksError::InvalidHost),
    }
}

/// The state of a dialogue after the bytes read so far. Reading exactly as many bytes as
/// are needed next never takes a byte of the stream that follows.
pub fn socks_command(
    config: &LocalProxyProfile,
    proxy: Ipv4,
    command: u8,
    destination: Endpoint,
    input: &[u8],
) -> (r: SocksDialogue)
    ensures
        is_dialogue(*config, proxy, command, destination, input@, r.sent@, r.state@),
{
    let username = config.username.as_str().as_bytes();
    let password = config.password.as_str().as_bytes();
    let method: u8 = if config.username.as_str().is_empty() {
        0
    } else {
        2
    };
    let mut sent: Vec<u8> = Vec::new();
    sent.push(5);
    sent.push(1);
    sent.push(method);
    let ghost greeting = seq![5u8, 1, method];
    proof {
        assert(sent@ =~= greeting);
    }
    let n: usize = input.len();
    if n < 2 {
        return SocksDialogue { sent, state: SocksState::Need(2 - n) };
    }
    if input[0] != 5 || input[1] != method {
        return SocksDialogue { sent, state: SocksState::Failed(SocksError::MethodRejected) };
    }
    let mut at: usize = 2;
    if method == 2 {
        sent.push(1);
        sent.push((username.len() % 256) as u8);
        push_bytes(&mut sent, username);
        sent.push((password.len() % 256) as u8);
        push_bytes(&mut sent, password);
        proof {
            assert(sent@ =~= greeting + auth_message(username@, password@));
        }
        if n < 4 {
            return SocksDialogue { sent, state: SocksState::Need(4 - n) };
        }
        if input[2] != 1 || input[3] != 0 {
            return SocksDialogue { sent, state: SocksState::Failed(SocksError::BadCredentials) };
        }
        at = 4;
    }
    let ghost before = sent@;
    sent.push(5);
    sent.push(command);
    sent.push(0);
    append_socks_address(&mut sent, destination);
    proof {
        assert(sent@ =~= before + (seq![5u8, command, 0] + socks_address(destination)));
    }
    let state = reply_state(input, at, proxy);
    SocksDialogue { sent, state }
}

/// An address on the wire, read back field by field: its type, its octets in order, and its
/// port in network order.
pub proof fn law_socks_address_layout(e: Endpoint)
    ensures
        ({
            let b = socks_address(e);
            match e.ip {
                IpAddress::V4(ip) => {
                    &&& b.len() == 7
                    &&& b[0] == 1
                    &&& b[1] == ip.a && b[2] == ip.b && b[3] == ip.c && b[4] == ip.d
                    &&& be_nat(b.subrange(5, 7)) == e.port
                },
                IpAddress::V6(ip) => {
                    &&& b.len() == 19
                    &&& b[0] == 4
                    &&& be_nat(b.subrange(1, 9)) == ip.hi
                    &&& be_nat(b.subrange(9, 17)) == ip.lo
                    &&& be_nat(b.subrange(17, 19)) == e.port
                },
            }
        }),
{
    lemma_pow256();
    lemma_socks_address_len(e);
    let b = socks_address(e);
    lemma_be_nat_of_bytes(e.port as nat, 2);
    match e.ip {
        IpAddress::V4(ip) => {
            assert(b.subrange(5, 7) =~= be_bytes(e.port as nat, 2));
        },
        IpAddress::V6(ip) => {
            lemma_be_nat_of_bytes(ip.hi as nat, 8);
            lemma_be_nat_of_bytes(ip.lo as nat, 8);
            assert(b.subrange(1, 9) =~= be_bytes(ip.hi as nat, 8));
            assert(b.subrange(9, 17) =~= be_bytes(ip.lo as nat, 8));
            assert(b.subrange(17, 19) =~= be_bytes(e.port as nat, 2));
        },
    }
}

/// A relayed datagram is three zero bytes, the address and the payload, unchanged.
pub proof fn law_udp_datagram_layout(source: Endpoint, payload: Seq<u8>)
    ensures
        ({
            let b = udp_datagram(source, payload);
            let n = if source.ip is V4 {
                10int
            } else {
                22int
            };
            &&& b.len() == n + payload.len()
            &&& b[0] == 0 && b[1] == 0 && b[2] == 0
            &&& b.subrange(3, n) == socks_address(source)
            &&& b.skip(n) == payload
        }),
{
    lemma_socks_address_len(source);
    let b = udp_datagram(source, payload);
    let n = if source.ip is V4 {
        10int
    } else {
        22int
    };
    assert(b.subrange(3, n) =~= socks_address(source));
    assert(b.skip(n) =~= payload);
}

/// A message with credentials holds each behind its length.
pub proof fn law_credentials_are_counted(username: Seq<u8>, password: Seq<u8>)
    requires
        username.len() <= 255,
        password.len() <= 255,
    ensures
        ({
            let m = auth_message(username, password);
            let u = username.len() as int;
            &&& m.len() == 3 + username.len() + password.len()
            &&& m[0] == 1
            &&& m[1] == u
            &&& m.subrange(2, 2 + u) == username
            &&& m[2 + u] == password.len()
            &&& m.skip(3 + u) == password
        }),
{
    let m = auth_message(username, password);
    let u = username.len() as int;
    assert(m.subrange(2, 2 + u) =~= username);
    assert(m.skip(3 + u) =~= password);
}

/// A proxy that asks for nothing is greeted, told the command and the destination, and
/// taken at its word where it serves; an address of all zeros stands for its own address.
pub proof fn law_dialogue_without_credentials(
    config: LocalProxyProfile,
    proxy: Ipv4,
    command: u8,
    destination: Endpoint,
    bound: Endpoint,
    sent: Seq<u8>,
    state: SocksView,
)
    requires
        config.username@.len() == 0,
        is_dialogue(
            config,
            proxy,
            command,
            destination,
            seq![5u8, 0, 5, 0, 0] + socks_address(bound),
            sent,
            state,
        ),
    ensures
        sent == seq![5u8, 1, 0, 5, command, 0] + socks_address(destination),
        bound.ip != IpAddress::V4(Ipv4 { a: 0, b: 0, c: 0, d: 0 }) && bound.ip != IpAddress::V6(
            Ipv6 { hi: 0, lo: 0 },
        ) ==> state == SocksView::Bound(bound),
        bound.ip == IpAddress::V4(Ipv4 { a: 0, b: 0, c: 0, d: 0 }) || bound.ip == IpAddress::V6(
            Ipv6 { hi: 0, lo: 0 },
        ) ==> state == SocksView::Bound(Endpoint { ip: IpAddress::V4(proxy), port: bound.port }),
{
    let input = seq![5u8, 0, 5, 0, 0] + socks_address(bound);
    assert(input.skip(5) =~= socks_address(bound));
    lemma_bound_reply(input, 2, bound, proxy, state);
    assert(sent =~= seq![5u8, 1, 0, 5, command, 0] + socks_address(destination));
}

/// A proxy with credentials is greeted, given them, and only then told the command.
pub proof fn law_dialogue_with_credentials(
    config: LocalProxyProfile,
    proxy: Ipv4,
    command: u8,
    destination: Endpoint,
    bound: Endpoint,
    sent: Seq<u8>,
    state: SocksView,
)
    requires
        config.username@.len() > 0,
        is_dialogue(
            config,
            proxy,
            command,
            destination,
            seq![5u8, 2, 1, 0, 5, 0, 0] + socks_address(bound),
            sent,
            state,
        ),
    ensures
        sent == seq![5u8, 1, 2] + auth_message(
            encode_utf8(config.username@),
            encode_utf8(config.password@),
        ) + seq![5u8, command, 0] + socks_address(destination),
        state == SocksView::Bound(effective_endpoint(bound, proxy)),
{
    let input = seq![5u8, 2, 1, 0, 5, 0, 0] + socks_address(bound);
    assert(input.skip(7) =~= socks_address(bound));
    lemma_bound_reply(input, 4, bound, proxy, state);
    assert(sent =~= seq![5u8, 1, 2] + auth_message(
        encode_utf8(config.username@),
        encode_utf8(config.password@),
    ) + seq![5u8, command, 0] + socks_address(destination));
}

proof fn lemma_bound_reply(
    input: Seq<u8>,
    at: int,
    bound: Endpoint,
    proxy: Ipv4,
    state: SocksView,
)
    requires
        0 <= at,
        input.len() == at + 3 + socks_address(bound).len(),
        input.skip(at + 3) == socks_address(bound),
        input[at] == 5,
        input[at + 1] == 0,
        input[at + 2] == 0,
        is_reply_state(input, at, proxy, state),
    ensures
        state == SocksView::Bound(effective_endpoint(bound, proxy)),
{
    lemma_socks_address_len(bound);
    let b = socks_address(bound);
    assert(input[at + 3] == input.skip(at + 3)[0]);
    let total: int = if b[0] == 1 {
        10
    } else {
        22
    };
    assert(input.subrange(at + 3, at + total) =~= b);
    let found = choose|found: Endpoint| #[trigger] socks_address(found) == input.subrange(
        at + 3,
        at + total,
    ) && state == SocksView::Bound(effective_endpoint(found, proxy));
    law_socks_address_unique(found, bound);
}

/// Whether a name with its port stands behind a reply, and how the other replies end: a
/// method that was not offered, refused credentials, a failure with its code, an address of
/// unknown type.
pub proof fn law_dialogue_failures(
    config: LocalProxyProfile,
    proxy: Ipv4,
    command: u8,
    destination: Endpoint,
    input: Seq<u8>,
    sent: Seq<u8>,
    state: SocksView,
)
    requires
        is_dialogue(config, proxy, command, destination, input, sent, state),
    ensures
        input.len() < 2 ==> state == SocksView::Need((2 - input.len()) as nat) && sent == seq![
            5u8,
            1,
            if config.username@.len() == 0 {
                0u8
            } else {
                2u8
            },
        ],
        input.len() >= 2 && input[0] != 5 ==> state == SocksView::Failed(
            SocksError::MethodRejected,
        ),
        input.len() >= 2 && config.username@.len() == 0 && input[1] != 0 ==> state
            == SocksView::Failed(SocksError::MethodRejected),
        input.len() >= 2 && config.username@.len() > 0 && input[1] != 2 ==> state
            == SocksView::Failed(SocksError::MethodRejected),
        input.len() >= 4 && config.username@.len() > 0 && input[0] == 5 && input[1] == 2 && (
        input[2] != 1 || input[3] != 0) ==> state == SocksView::Failed(SocksError::BadCredentials),
        input.len() >= 6 && config.username@.len() == 0 && input[0] == 5 && input[1] == 0
            && input[3] != 0 ==> state == SocksView::Failed(SocksError::Reply(input[3])),
        input.len() >= 8 && config.username@.len() > 0 && input[0] == 5 && input[1] == 2 && input[2]
            == 1 && input[3] == 0 && input[5] != 0 ==> state == SocksView::Failed(
            SocksError::Reply(input[5]),
        ),
        input.len() >= 6 && config.username@.len() == 0 && input[0] == 5 && input[1] == 0
            && input[2] == 5 && input[3] == 0 && input[4] == 0 && input[5] != 1 && input[5] != 3
            && input[5] != 4 ==> state == SocksView::Failed(SocksError::AddressType(input[5])),
{
}

/// A reply that names a host gives that host and its port.
pub proof fn law_named_hosts_are_read(
    input: Seq<u8>,
    at: int,
    host: Seq<char>,
    port: u16,
    proxy: Ipv4,
    state: SocksView,
)
    requires
        0 <= at,
        encode_utf8(host).len() <= 255,
        input.len() >= at,
        input.skip(at) == seq![5u8, 0, 0, 3, encode_utf8(host).len() as u8] + encode_utf8(host)
            + be_bytes(port as nat, 2),
        is_reply_state(input, at, proxy, state),
    ensures
        state == SocksView::BoundHost(host, port),
{
    let e = encode_utf8(host);
    let tail = seq![5u8, 0, 0, 3, e.len() as u8] + e + be_bytes(port as nat, 2);
    lemma_pow256();
    lemma_be_nat_of_bytes(port as nat, 2);
    let t = input.skip(at);
    assert(t.len() == input.len() - at);
    assert(t.len() == 7 + e.len());
    assert forall|k: int| 0 <= k < t.len() implies #[trigger] input[at + k] == tail[k] by {
        assert(t[k] == input[at + k]);
    }
    assert(input[at + 0] == 5 && input[at + 1] == 0 && input[at + 2] == 0 && input[at + 3] == 3
        && input[at + 4] == tail[4]);
    let n = e.len() as int;
    assert(input.subrange(at + 5, at + 5 + n) =~= t.subrange(5, 5 + n));
    assert(tail.subrange(5, 5 + n) =~= e);
    assert(input.subrange(at + 5 + n, at + 7 + n) =~= t.subrange(5 + n, 7 + n));
    assert(tail.subrange(5 + n, 7 + n) =~= be_bytes(port as nat, 2));
    vstd::utf8::encode_utf8_valid_utf8(host);
    vstd::utf8::encode_utf8_decode_utf8(host);
}

/// A profile can be used where its host is the address of one machine, its port is not
/// zero, and its credentials are short, printable and have a name; each fault has its own
/// answer, the host's first.
pub proof fn law_usable_profiles(p: LocalProxyProfile, ip: Ipv4, r: Result<(), ProfileError>)
    requires
        profile_verdict(p, r),
    ensures
        p.host@ == ipv4_text(ip) && (224 <= ip.a <= 239 || ip.octets_spec() == seq![
            0u8,
            0,
            0,
            0,
        ] || ip.octets_spec() == seq![255u8, 255, 255, 255]) ==> r == Err::<(), ProfileError>(
            ProfileError::HostNotUnicast,
        ),
        p.host@ == ipv4_text(ip) && (1 <= ip.a < 224) && p.port == 0 ==> r == Err::<
            (),
            ProfileError,
        >(ProfileError::Port),
        r is Ok ==> p.port != 0 && encode_utf8(p.username@).len() <= 255 && encode_utf8(
            p.password@,
        ).len() <= 255 && !has_control(p.username@) && !has_control(p.password@) && (
        p.password@.len() > 0 ==> p.username@.len() > 0),
        p.host@ == ipv4_text(ip) && 1 <= ip.a < 224 && p.port != 0 && encode_utf8(
            p.username@,
        ).len() <= 255 && encode_utf8(p.password@).len() <= 255 && !has_control(p.username@)
            && !has_control(p.password@) && p.username@.len() > 0 ==> r is Ok,
        p.host@ == ipv4_text(ip) && 1 <= ip.a < 224 && p.port != 0 && p.username@.len() == 0
            && p.password@.len() == 0 ==> r is Ok,
        r == Err::<(), ProfileError>(ProfileError::UsernameMissing) ==> p.username@.len() == 0
            && p.password@.len() > 0,
        r == Err::<(), ProfileError>(ProfileError::CredentialsTooLong) ==> encode_utf8(
            p.username@,
        ).len() > 255 || encode_utf8(p.password@).len() > 255,
{
    if p.host@ == ipv4_text(ip) {
        assert forall|other: Ipv4| p.host@ == #[trigger] ipv4_text(other) implies other == ip by {
            law_ipv4_text_injective(other, ip);
        }
        let o = ip.octets_spec();
        assert(o[0] == ip.a && o[1] == ip.b && o[2] == ip.c && o[3] == ip.d);
        if not_unicast(ip) {
            assert(p.host@ == ipv4_text(ip) && not_unicast(ip));
        }
    }
    if p.username@.len() == 0 && p.password@.len() == 0 {
        assert(encode_utf8(p.username@).len() == 0);
        assert(encode_utf8(p.password@).len() == 0);
    }
}

/// What is read from a relayed datagram.
pub open spec fn response_read(
    p: Seq<u8>,
    r: Result<(Endpoint, &[u8]), UdpResponseError>,
) -> bool {
    if p.len() < 4 || p[0] != 0 || p[1] != 0 || p[2] != 0 {
        r is Err && r->Err_0 == UdpResponseError::Header
    } else if p[3] == 3 {
        r is Err && r->Err_0 == UdpResponseError::DomainAddress
    } else if p[3] != 1 && p[3] != 4 {
        r is Err && r->Err_0 == UdpResponseError::AddressType(p[3])
    } else if p.len() < (if p[3] == 1 {
        10int
    } else {
        22int
    }) {
        r is Err && r->Err_0 == UdpResponseError::Short
    } else {
        r matches Ok((source, payload)) && p == udp_datagram(source, payload@)
    }
}

/// A relayed datagram is read as it was written, source and payload; a datagram that is
/// none has the answer that fits its fault.
pub proof fn law_relayed_datagrams_are_read_back(
    p: Seq<u8>,
    source: Endpoint,
    payload: Seq<u8>,
    r: Result<(Endpoint, &[u8]), UdpResponseError>,
)
    requires
        response_read(p, r),
    ensures
        p == udp_datagram(source, payload) ==> (r matches Ok((from, got)) && from == source && got@
            == payload),
        p.len() < 4 ==> (r matches Err(UdpResponseError::Header)),
        p.len() >= 4 && (p[0] != 0 || p[1] != 0 || p[2] != 0) ==> (r matches Err(
            UdpResponseError::Header,
        )),
        p.len() >= 4 && p[0] == 0 && p[1] == 0 && p[2] == 0 && p[3] == 3 ==> (r matches Err(
            UdpResponseError::DomainAddress,
        )),
        p.len() >= 4 && p[0] == 0 && p[1] == 0 && p[2] == 0 && p[3] == 1 && p.len() < 10 ==> (
        r matches Err(UdpResponseError::Short)),
        p.len() >= 4 && p[0] == 0 && p[1] == 0 && p[2] == 0 && p[3] == 4 && p.len() < 22 ==> (
        r matches Err(UdpResponseError::Short)),
{
    if p == udp_datagram(source, payload) {
        law_udp_datagram_layout(source, payload);
        law_socks_address_layout(source);
        let a = socks_address(source);
        assert(p[3] == a[0]) by {
            let n = if source.ip is V4 {
                10int
            } else {
                22int
            };
            assert(p.subrange(3, n)[0] == p[3]);
        }
        if let Ok((from, got)) = r {
            law_udp_datagram_unique(from, got@, source, payload);
        }
    }
}

/// An error in words.
pub open spec fn profile_error_words(e: ProfileError) -> Seq<char> {
    match e {
        ProfileError::HostNotIpv4 => "SOCKS5 host must be an IPv4 address"@,
        ProfileError::HostNotUnicast => "SOCKS5 host must be a unicast IPv4 address"@,
        ProfileError::Port => "SOCKS5 port must be in range 1-65535"@,
        ProfileError::CredentialsTooLong => "SOCKS5 username and password must not exceed 255 bytes"@,
        ProfileError::UsernameMissing => "SOCKS5 username is required when a password is set"@,
        ProfileError::ControlCharacter => "SOCKS5 credentials must not contain control characters"@,
    }
}

/// Every error has words of its own.
pub proof fn law_profile_errors_have_words(a: ProfileError, b: ProfileError)
    ensures
        profile_error_words(a) == profile_error_words(b) <==> a == b,
        a is HostNotIpv4 <==> profile_error_words(a) == "SOCKS5 host must be an IPv4 address"@,
        a is HostNotUnicast <==> profile_error_words(a) == "SOCKS5 host must be a unicast IPv4 address"@,
        a is Port <==> profile_error_words(a) == "SOCKS5 port must be in range 1-65535"@,
        a is CredentialsTooLong <==> profile_error_words(a) == "SOCKS5 username and password must not exceed 255 bytes"@,
        a is UsernameMissing <==> profile_error_words(a) == "SOCKS5 username is required when a password is set"@,
        a is ControlCharacter <==> profile_error_words(a) == "SOCKS5 credentials must not contain control characters"@,
{
    reveal_strlit("SOCKS5 host must be an IPv4 address");
    reveal_strlit("SOCKS5 host must be a unicast IPv4 address");
    reveal_strlit("SOCKS5 port must be in range 1-65535");
    reveal_strlit("SOCKS5 username and password must not exceed 255 bytes");
    reveal_strlit("SOCKS5 username is required when a password is set");
    reveal_strlit("SOCKS5 credentials must not contain control characters");
    assert("SOCKS5 host must be an IPv4 address"@.len() != "SOCKS5 host must be a unicast IPv4 address"@.len());
    assert("SOCKS5 host must be an IPv4 address"@.len() != "SOCKS5 port must be in range 1-65535"@.len());
    assert("SOCKS5 host must be an IPv4 address"@.len() != "SOCKS5 username and password must not exceed 255 bytes"@.len());
    assert("SOCKS5 host must be an IPv4 address"@.len() != "SOCKS5 username is required when a password is set"@.len());
    assert("SOCKS5 host must be an IPv4 address"@.len() != "SOCKS5 credentials must not contain control characters"@.len());
    assert("SOCKS5 host must be a unicast IPv4 address"@.len() != "SOCKS5 port must be in range 1-65535"@.len());
    assert("SOCKS5 host must be a unicast IPv4 address"@.len() != "SOCKS5 username and password must not exceed 255 bytes"@.len());
    assert("SOCKS5 host must be a unicast IPv4 address"@.len() != "SOCKS5 username is required when a password is set"@.len());
    assert("SOCKS5 host must be a unicast IPv4 address"@.len() != "SOCKS5 credentials must not contain control characters"@.len());
    assert("SOCKS5 port must be in range 1-65535"@.len() != "SOCKS5 username and password must not exceed 255 bytes"@.len());
    assert("SOCKS5 port must be in range 1-65535"@.len() != "SOCKS5 username is required when a password is set"@.len());
    assert("SOCKS5 port must be in range 1-65535"@.len() != "SOCKS5 credentials must not contain control characters"@.len());
    assert("SOCKS5 username and password must not exceed 255 bytes"@.len() != "SOCKS5 username is required when a password is set"@.len());
    assert("SOCKS5 username and password must not exceed 255 bytes"@[7] != "SOCKS5 credentials must not contain control characters"@[7]);
    assert("SOCKS5 username is required when a password is set"@.len() != "SOCKS5 credentials must not contain control characters"@.len());
}

} // verus!
