//! The tunnel's private /24 network.
use vstd::prelude::*;
use crate::addr::{Ipv4, ipv4_text, law_ipv4_text_injective, octet_texts};
use crate::text::{all_digits, chars_of, is_digit, join, lemma_dec, string_of, sub_chars};

verus! {

/// Name of the tunnel interface.
pub const TUN_IFACE: &'static str = "csqtt1";

/// A private /24 network, by its first three octets.
#[derive(Debug)]
pub struct TunnelNetwork {
    pub prefix: [u8; 3],
    pub subnet: String,
    pub gateway: String,
}

/// Why a subnet text is not a usable tunnel network.
#[derive(Clone, Copy, Debug, PartialEq, Eq, Structural)]
pub enum NetworkError {
    /// The text is not an address followed by `/24`.
    NotSlash24,
    /// The part before the slash is no IPv4 address.
    InvalidAddress,
    /// The address is not private, or does not end in `.0`.
    NotPrivateNetwork,
}

/// The address of `host` in the network with the given first three octets.
pub open spec fn host_address(prefix: Seq<u8>, host: u8) -> Ipv4 {
    Ipv4 { a: prefix[0], b: prefix[1], c: prefix[2], d: host }
}

/// The text of `address/24`.
pub open spec fn slash24(address: Seq<char>) -> Seq<char> {
    address + seq!['/', '2', '4']
}

/// The part before the first slash, where `/24` is all that follows it.
pub open spec fn before_slash24(value: Seq<char>) -> Option<Seq<char>> {
    let n = value.len() - 3;
    if n >= 0 && value == slash24(value.take(n)) && !value.take(n).contains('/') {
        Some(value.take(n))
    } else {
        None
    }
}

impl TunnelNetwork {
    /// The derived texts agree with the prefix.
    pub open spec fn wf(&self) -> bool {
        &&& self.subnet@ == slash24(ipv4_text(host_address(self.prefix@, 0)))
        &&& self.gateway@ == ipv4_text(host_address(self.prefix@, 1))
    }

    /// The network of a prefix.
    pub fn from_prefix(prefix: [u8; 3]) -> (r: TunnelNetwork)
        ensures
            r.wf(),
            r.prefix@ == prefix@,
    {
        let base = Ipv4 { a: prefix[0], b: prefix[1], c: prefix[2], d: 0 };
        let mut subnet = base.text();
        let ghost t = subnet@;
        subnet.push('/');
        subnet.push('2');
        subnet.push('4');
        proof {
            assert(subnet@ =~= slash24(t));
        }
        let gateway = Ipv4 { a: prefix[0], b: prefix[1], c: prefix[2], d: 1 }.text();
        TunnelNetwork {
            prefix,
            subnet: string_of(subnet.as_slice()),
            gateway: string_of(gateway.as_slice()),
        }
    }

    /// Reads a private network address that ends in `.0/24`.
    pub fn parse(value: &str) -> (r: Result<TunnelNetwork, NetworkError>)
        ensures
            match before_slash24(value@) {
                None => r == Err::<TunnelNetwork, NetworkError>(NetworkError::NotSlash24),
                Some(text) => {
                    &&& r == Err::<TunnelNetwork, NetworkError>(NetworkError::InvalidAddress)
                        <==> forall|ip: Ipv4| text != #[trigger] ipv4_text(ip)
                    &&& forall|ip: Ipv4|
                        text == #[trigger] ipv4_text(ip) ==> if ip.is_private_spec() && ip.d == 0 {
                            r matches Ok(net) && net.wf() && host_address(net.prefix@, 0) == ip
                        } else {
                            r == Err::<TunnelNetwork, NetworkError>(NetworkError::NotPrivateNetwork)
                        }
                },
            },
    {
        let chars = chars_of(value);
        let n: usize = chars.len();
        if n < 3 || chars[n - 3] != '/' || chars[n - 2] != '2' || chars[n - 1] != '4' {
            proof {
                if n >= 3 {
                    let s = slash24(value@.take(n - 3));
                    assert(s[n - 3] == '/' && s[n - 2] == '2' && s[n - 1] == '4');
                }
            }
            return Err(NetworkError::NotSlash24);
        }
        let text = sub_chars(chars.as_slice(), 0, n - 3);
        proof {
            assert(text@ =~= value@.take(n - 3));
            assert(value@ =~= slash24(value@.take(n - 3)));
        }
        let mut i: usize = 0;
        while i < text.len()
            invariant
                i <= text@.len(),
                forall|j: int| 0 <= j < i ==> #[trigger] text@[j] != '/',
                text@ == value@.take(value@.len() - 3),
            decreases text@.len() - i,
        {
            if text[i] == '/' {
                proof {
                    assert(text@.contains(text@[i as int]));
                }
                return Err(NetworkError::NotSlash24);
            }
            i = i + 1;
        }
        match Ipv4::parse(text.as_slice()) {
            None => Err(NetworkError::InvalidAddress),
            Some(ip) => {
                proof {
                    assert forall|other: Ipv4| text@ == #[trigger] ipv4_text(other) implies other
                        == ip by {
                        law_ipv4_text_injective(other, ip);
                    }
                }
                if !ip.is_private() || ip.d != 0 {
                    return Err(NetworkError::NotPrivateNetwork);
                }
                Ok(TunnelNetwork::from_prefix([ip.a, ip.b, ip.c]))
            },
        }
    }

    /// The dotted address of a host of this network.
    pub fn client_ip(&self, host: u8) -> (r: String)
        ensures
            r@ == ipv4_text(host_address(self.prefix@, host)),
    {
        let ip = Ipv4 { a: self.prefix[0], b: self.prefix[1], c: self.prefix[2], d: host };
        string_of(ip.text().as_slice())
    }
}

/// The network that is used where none is configured: 10.66.67.0/24.
pub fn network() -> (r: TunnelNetwork)
    ensures
        r.wf(),
        r.prefix@ == seq![10u8, 66, 67],
{
    let prefix: [u8; 3] = [10, 66, 67];
    proof {
        assert(prefix@ =~= seq![10u8, 66, 67]);
    }
    TunnelNetwork::from_prefix(prefix)
}

/// The configured network, or the default one where nothing is configured.
pub fn initialize(configured: Option<&str>) -> (r: Result<TunnelNetwork, NetworkError>)
    ensures
        configured is None ==> (r matches Ok(net) && net.wf() && net.prefix@ == seq![
            10u8,
            66,
            67,
        ]),
        configured matches Some(value) ==> match before_slash24(value@) {
            None => r == Err::<TunnelNetwork, NetworkError>(NetworkError::NotSlash24),
            Some(text) => {
                &&& r == Err::<TunnelNetwork, NetworkError>(NetworkError::InvalidAddress)
                    <==> forall|ip: Ipv4| text != #[trigger] ipv4_text(ip)
                &&& forall|ip: Ipv4|
                    text == #[trigger] ipv4_text(ip) ==> if ip.is_private_spec() && ip.d == 0 {
                        r matches Ok(net) && net.wf() && host_address(net.prefix@, 0) == ip
                    } else {
                        r == Err::<TunnelNetwork, NetworkError>(NetworkError::NotPrivateNetwork)
                    }
            },
        },
{
    match configured {
        Some(value) => TunnelNetwork::parse(value),
        None => Ok(network()),
    }
}

/// The subnet text of a network.
pub fn tun_subnet(network: &TunnelNetwork) -> (r: &str)
    ensures
        r@ == network.subnet@,
{
    network.subnet.as_str()
}

/// Every host of a parsed network has the network's own three leading octets,
/// and different hosts have different addresses.
pub proof fn law_client_addresses_distinct(net: TunnelNetwork, x: u8, y: u8)
    requires
        ipv4_text(host_address(net.prefix@, x)) == ipv4_text(host_address(net.prefix@, y)),
    ensures
        x == y,
{
    law_ipv4_text_injective(host_address(net.prefix@, x), host_address(net.prefix@, y));
}

/// A network of a prefix is written with host zero and its width, its gateway is host one,
/// and a host differs from another in the last octet alone.
pub proof fn law_network_texts(net: TunnelNetwork, host: u8)
    requires
        net.wf(),
    ensures
        net.subnet@ == ipv4_text(
            Ipv4 { a: net.prefix@[0], b: net.prefix@[1], c: net.prefix@[2], d: 0 },
        ) + seq!['/', '2', '4'],
        net.gateway@ == ipv4_text(
            Ipv4 { a: net.prefix@[0], b: net.prefix@[1], c: net.prefix@[2], d: 1 },
        ),
        host_address(net.prefix@, host).octets_spec() == net.prefix@ + seq![host],
        before_slash24(net.subnet@) == Some(ipv4_text(host_address(net.prefix@, 0))),
{
    let ip = host_address(net.prefix@, 0);
    let text = ipv4_text(ip);
    let value = slash24(text);
    assert(value.take(text.len() as int) =~= text);
    assert(!text.contains('/')) by {
        let parts = octet_texts(ip);
        lemma_dec(ip.a as nat);
        lemma_dec(ip.b as nat);
        lemma_dec(ip.c as nat);
        lemma_dec(ip.d as nat);
        assert forall|i: int| 0 <= i < parts.len() implies !(#[trigger] parts[i]).contains('/') by {
            assert(all_digits(parts[i]));
            assert(!is_digit('/'));
        }
        lemma_join_without(parts, '.', '/');
    }
    assert(host_address(net.prefix@, host).octets_spec() =~= net.prefix@ + seq![host]);
}

proof fn lemma_join_without(parts: Seq<Seq<char>>, sep: char, c: char)
    requires
        sep != c,
        forall|i: int| 0 <= i < parts.len() ==> !(#[trigger] parts[i]).contains(c),
    ensures
        !join(parts, seq![sep]).contains(c),
    decreases parts.len(),
{
    if parts.len() > 1 {
        let d = parts.drop_last();
        assert forall|i: int| 0 <= i < d.len() implies !(#[trigger] d[i]).contains(c) by {
            assert(d[i] == parts[i]);
        }
        lemma_join_without(d, sep, c);
        let whole = join(parts, seq![sep]);
        let left = join(d, seq![sep]);
        assert(parts.last() == parts[parts.len() - 1]);
        assert forall|k: int| 0 <= k < whole.len() implies whole[k] != c by {
            if k < left.len() {
                assert(left.contains(left[k]));
            } else if k > left.len() {
                let last = parts.last();
                assert(whole[k] == last[k - left.len() - 1]);
                assert(last.contains(last[k - left.len() - 1]));
            }
        }
    } else if parts.len() == 1 {
        assert(!parts[0].contains(c));
    }
}

/// What stands before `/24` is read back, where it holds no slash of its own; nothing else has
/// such a part.
pub proof fn law_part_before_the_length(address: Seq<char>, value: Seq<char>)
    ensures
        !address.contains('/') ==> before_slash24(address + seq!['/', '2', '4']) == Some(address),
        (before_slash24(value) matches Some(part) ==> value == part + seq!['/', '2', '4']
            && !part.contains('/')),
{
    let v = address + seq!['/', '2', '4'];
    assert(v.take(v.len() - 3) =~= address);
}

} // verus!
