//! Internet addresses as plain values: text form, classes and wire bytes.
use vstd::prelude::*;
use crate::text::{
    all_digits, dec, decimal, is_digit, join, lemma_dec, lemma_dec_canonical, lemma_dec_injective,
    lemma_dec_no_leading_zero, lemma_join_split, lemma_split_join, parse_number, push_chars, split,
    split_on, views,
};

verus! {

/// An IPv4 address, most significant octet first.
#[derive(Clone, Copy, Debug, PartialEq, Eq, Structural)]
pub struct Ipv4 {
    pub a: u8,
    pub b: u8,
    pub c: u8,
    pub d: u8,
}

/// An IPv6 address as its two 64-bit halves.
#[derive(Clone, Copy, Debug, PartialEq, Eq, Structural)]
pub struct Ipv6 {
    pub hi: u64,
    pub lo: u64,
}

/// An address of either family.
#[derive(Clone, Copy, Debug, PartialEq, Eq, Structural)]
pub enum IpAddress {
    V4(Ipv4),
    V6(Ipv6),
}

/// An address with a port.
#[derive(Clone, Copy, Debug, PartialEq, Eq, Structural)]
pub struct Endpoint {
    pub ip: IpAddress,
    pub port: u16,
}

/// The four octets of a dotted address as decimal texts.
pub open spec fn octet_texts(ip: Ipv4) -> Seq<Seq<char>> {
    seq![dec(ip.a as nat), dec(ip.b as nat), dec(ip.c as nat), dec(ip.d as nat)]
}

/// The dotted decimal form of an address.
pub open spec fn ipv4_text(ip: Ipv4) -> Seq<char> {
    join(octet_texts(ip), seq!['.'])
}

/// Digits hold no dot and no slash.
pub proof fn lemma_digits_exclude(s: Seq<char>, c: char)
    requires
        all_digits(s),
        !is_digit(c),
    ensures
        !s.contains(c),
{
    if s.contains(c) {
        let i = choose|i: int| 0 <= i < s.len() && s[i] == c;
        assert(is_digit(s[i]));
    }
}

/// Splitting the dotted form at the dots gives the four octet texts.
pub proof fn lemma_ipv4_text_split(ip: Ipv4)
    ensures
        split(ipv4_text(ip), '.') == octet_texts(ip),
{
    let t = octet_texts(ip);
    lemma_dec(ip.a as nat);
    lemma_dec(ip.b as nat);
    lemma_dec(ip.c as nat);
    lemma_dec(ip.d as nat);
    assert forall|i: int| 0 <= i < t.len() implies !(#[trigger] t[i]).contains('.') by {
        lemma_digits_exclude(t[i], '.');
    }
    lemma_split_join(t, '.');
}

/// Different addresses have different dotted forms.
pub proof fn law_ipv4_text_injective(x: Ipv4, y: Ipv4)
    requires
        ipv4_text(x) == ipv4_text(y),
    ensures
        x == y,
{
    lemma_ipv4_text_split(x);
    lemma_ipv4_text_split(y);
    let s = octet_texts(x);
    let t = octet_texts(y);
    assert(s[0] == t[0] && s[1] == t[1] && s[2] == t[2] && s[3] == t[3]);
    lemma_dec_injective(x.a as nat, y.a as nat);
    lemma_dec_injective(x.b as nat, y.b as nat);
    lemma_dec_injective(x.c as nat, y.c as nat);
    lemma_dec_injective(x.d as nat, y.d as nat);
}

/// The dotted form holds digits and dots only.
pub proof fn lemma_ipv4_text_chars(ip: Ipv4, c: char)
    requires
        !is_digit(c),
        c != '.',
    ensures
        !ipv4_text(ip).contains(c),
{
    let t = octet_texts(ip);
    lemma_dec(ip.a as nat);
    lemma_dec(ip.b as nat);
    lemma_dec(ip.c as nat);
    lemma_dec(ip.d as nat);
    lemma_digits_exclude(t[0], c);
    lemma_digits_exclude(t[1], c);
    lemma_digits_exclude(t[2], c);
    lemma_digits_exclude(t[3], c);
    lemma_ipv4_text_concat(ip);
    let s = ipv4_text(ip);
    if s.contains(c) {
        let i = choose|i: int| 0 <= i < s.len() && s[i] == c;
        let dot = seq!['.'];
        let n0 = t[0].len();
        let n1 = n0 + 1 + t[1].len();
        let n2 = n1 + 1 + t[2].len();
        if i < n0 {
            assert(t[0][i] == c);
        } else if i == n0 {
        } else if i < n1 {
            assert(t[1][i - n0 - 1] == c);
        } else if i == n1 {
        } else if i < n2 {
            assert(t[2][i - n1 - 1] == c);
        } else if i == n2 {
        } else {
            assert(t[3][i - n2 - 1] == c);
        }
    }
}

/// The dotted form written as one concatenation.
pub proof fn lemma_ipv4_text_concat(ip: Ipv4)
    ensures
        ipv4_text(ip) == dec(ip.a as nat) + seq!['.'] + dec(ip.b as nat) + seq!['.'] + dec(
            ip.c as nat,
        ) + seq!['.'] + dec(ip.d as nat),
{
    let t = octet_texts(ip);
    let sep = seq!['.'];
    let t3 = t.drop_last();
    let t2 = t3.drop_last();
    let t1 = t2.drop_last();
    assert(join(t1, sep) == t[0]);
    assert(t2.last() == t[1]);
    assert(join(t2, sep) == join(t1, sep) + sep + t[1]);
    assert(t3.last() == t[2]);
    assert(join(t3, sep) == join(t2, sep) + sep + t[2]);
    assert(t.last() == t[3]);
    assert(join(t, sep) == join(t3, sep) + sep + t[3]);
}

/// Reads one octet: the canonical decimal text of a number up to 255.
fn parse_octet(s: &[char]) -> (r: Option<u8>)
    ensures
        match r {
            Some(v) => s@ == dec(v as nat),
            None => forall|v: u8| s@ != #[trigger] dec(v as nat),
        },
{
    if s.len() == 0 || (s.len() > 1 && s[0] == '0') || s[0] == '+' {
        proof {
            assert forall|v: u8| s@ != #[trigger] dec(v as nat) by {
                lemma_dec(v as nat);
                lemma_dec_no_leading_zero(v as nat);
                if s@ == dec(v as nat) && s@.len() > 0 {
                    assert(is_digit(s@[0]));
                }
            }
        }
        return None;
    }
    match parse_number(s, 255) {
        Some(v) => {
            proof {
                lemma_dec_canonical(s@);
            }
            Some(v as u8)
        },
        None => {
            proof {
                assert forall|v: u8| s@ != #[trigger] dec(v as nat) by {
                    lemma_dec(v as nat);
                }
            }
            None
        },
    }
}

impl Ipv4 {
    /// The address with the given octets.
    pub fn new(octets: [u8; 4]) -> (r: Ipv4)
        ensures
            r.octets_spec() == octets@,
    {
        let r = Ipv4 { a: octets[0], b: octets[1], c: octets[2], d: octets[3] };
        proof {
            assert(r.octets_spec() =~= octets@);
        }
        r
    }

    /// The octets, most significant first.
    pub open spec fn octets_spec(self) -> Seq<u8> {
        seq![self.a, self.b, self.c, self.d]
    }

    /// The octets, most significant first.
    pub fn octets(self) -> (r: [u8; 4])
        ensures
            r@ == self.octets_spec(),
    {
        let r = [self.a, self.b, self.c, self.d];
        proof {
            assert(r@ =~= self.octets_spec());
        }
        r
    }

    /// Reads a dotted decimal address.
    pub fn parse(s: &[char]) -> (r: Option<Ipv4>)
        ensures
            match r {
                Some(ip) => s@ == ipv4_text(ip),
                None => forall|ip: Ipv4| s@ != #[trigger] ipv4_text(ip),
            },
    {
        let parts = split_on(s, '.');
        proof {
            assert forall|ip: Ipv4| s@ == #[trigger] ipv4_text(ip) implies views(parts@)
                == octet_texts(ip) by {
                lemma_ipv4_text_split(ip);
            }
        }
        if parts.len() != 4 {
            proof {
                assert forall|ip: Ipv4| s@ != #[trigger] ipv4_text(ip) by {
                    if s@ == ipv4_text(ip) {
                        assert(octet_texts(ip).len() == 4);
                    }
                }
            }
            return None;
        }
        let ghost v = views(parts@);
        proof {
            assert(v[0] == parts@[0]@ && v[1] == parts@[1]@ && v[2] == parts@[2]@ && v[3]
                == parts@[3]@);
        }
        let pa = parse_octet(parts[0].as_slice());
        let pb = parse_octet(parts[1].as_slice());
        let pc = parse_octet(parts[2].as_slice());
        let pd = parse_octet(parts[3].as_slice());
        match (pa, pb, pc, pd) {
            (Some(a), Some(b), Some(c), Some(d)) => {
                let ip = Ipv4 { a, b, c, d };
                proof {
                    assert(v =~= octet_texts(ip));
                    lemma_join_split(s@, '.');
                }
                Some(ip)
            },
            _ => {
                proof {
                    assert forall|ip: Ipv4| s@ != #[trigger] ipv4_text(ip) by {
                        if s@ == ipv4_text(ip) {
                            let t = octet_texts(ip);
                            assert(t[0] == dec(ip.a as nat) && t[1] == dec(ip.b as nat) && t[2]
                                == dec(ip.c as nat) && t[3] == dec(ip.d as nat));
                        }
                    }
                }
                None
            },
        }
    }

    /// The dotted decimal form.
    pub fn text(self) -> (r: Vec<char>)
        ensures
            r@ == ipv4_text(self),
    {
        let mut r = decimal(self.a as u64);
        r.push('.');
        let b = decimal(self.b as u64);
        push_chars(&mut r, b.as_slice());
        r.push('.');
        let c = decimal(self.c as u64);
        push_chars(&mut r, c.as_slice());
        r.push('.');
        let d = decimal(self.d as u64);
        push_chars(&mut r, d.as_slice());
        proof {
            lemma_ipv4_text_concat(self);
            assert(r@ =~= ipv4_text(self));
        }
        r
    }

    /// 10.0.0.0/8, 172.16.0.0/12 and 192.168.0.0/16.
    pub open spec fn is_private_spec(self) -> bool {
        self.a == 10 || (self.a == 172 && 16 <= self.b <= 31) || (self.a == 192 && self.b == 168)
    }

    /// Whether the address is in a private range.
    pub fn is_private(self) -> (r: bool)
        ensures
            r == self.is_private_spec(),
    {
        self.a == 10 || (self.a == 172 && 16 <= self.b && self.b <= 31) || (self.a == 192 && self.b
            == 168)
    }

    /// 0.0.0.0.
    pub open spec fn is_unspecified_spec(self) -> bool {
        self.a == 0 && self.b == 0 && self.c == 0 && self.d == 0
    }

    /// Whether the address is 0.0.0.0.
    pub fn is_unspecified(self) -> (r: bool)
        ensures
            r == self.is_unspecified_spec(),
    {
        self.a == 0 && self.b == 0 && self.c == 0 && self.d == 0
    }

    /// 224.0.0.0/4.
    pub open spec fn is_multicast_spec(self) -> bool {
        224 <= self.a <= 239
    }

    /// 255.255.255.255.
    pub open spec fn is_broadcast_spec(self) -> bool {
        self.a == 255 && self.b == 255 && self.c == 255 && self.d == 255
    }

    /// 127.0.0.0/8.
    pub open spec fn is_loopback_spec(self) -> bool {
        self.a == 127
    }

    /// 169.254.0.0/16.
    pub open spec fn is_link_local_spec(self) -> bool {
        self.a == 169 && self.b == 254
    }

    /// The address as a 32-bit number.
    pub open spec fn number_spec(self) -> nat {
        self.a as nat * 0x1000000 + self.b as nat * 0x10000 + self.c as nat * 0x100 + self.d as nat
    }

    /// The address as a 32-bit number.
    pub fn number(self) -> (r: u32)
        ensures
            r == self.number_spec(),
    {
        self.a as u32 * 0x1000000 + self.b as u32 * 0x10000 + self.c as u32 * 0x100 + self.d as u32
    }
}

/// Equal numbers mean equal addresses.
pub proof fn lemma_ipv4_number_injective(x: Ipv4, y: Ipv4)
    requires
        x.number_spec() == y.number_spec(),
    ensures
        x == y,
{
    if x.a < y.a {
        assert(x.number_spec() < y.number_spec());
    }
    if y.a < x.a {
        assert(y.number_spec() < x.number_spec());
    }
    if x.b < y.b {
        assert(x.number_spec() < y.number_spec());
    }
    if y.b < x.b {
        assert(y.number_spec() < x.number_spec());
    }
    if x.c < y.c {
        assert(x.number_spec() < y.number_spec());
    }
    if y.c < x.c {
        assert(y.number_spec() < x.number_spec());
    }
    if x.d < y.d {
        assert(x.number_spec() < y.number_spec());
    }
    if y.d < x.d {
        assert(y.number_spec() < x.number_spec());
    }
}

impl Ipv6 {
    /// The unspecified address.
    pub open spec fn is_unspecified_spec(self) -> bool {
        self.hi == 0 && self.lo == 0
    }

    /// The loopback address.
    pub open spec fn is_loopback_spec(self) -> bool {
        self.hi == 0 && self.lo == 1
    }

    /// The leading sixteen bits.
    pub open spec fn leading(self) -> nat {
        (self.hi / 0x1_0000_0000_0000) as nat
    }

    /// The IPv4 address that an IPv4-mapped address stands for.
    pub open spec fn mapped_spec(self) -> Option<Ipv4> {
        if self.hi == 0 && self.lo / 0x1_0000_0000 == 0xffff {
            Some(
                Ipv4 {
                    a: (self.lo / 0x100_0000 % 0x100) as u8,
                    b: (self.lo / 0x1_0000 % 0x100) as u8,
                    c: (self.lo / 0x100 % 0x100) as u8,
                    d: (self.lo % 0x100) as u8,
                },
            )
        } else {
            None
        }
    }

    /// The IPv4 address that an IPv4-mapped address stands for.
    pub fn mapped(self) -> (r: Option<Ipv4>)
        ensures
            r == self.mapped_spec(),
    {
        if self.hi == 0 && self.lo / 0x1_0000_0000 == 0xffff {
            Some(
                Ipv4 {
                    a: (self.lo / 0x100_0000 % 0x100) as u8,
                    b: (self.lo / 0x1_0000 % 0x100) as u8,
                    c: (self.lo / 0x100 % 0x100) as u8,
                    d: (self.lo % 0x100) as u8,
                },
            )
        } else {
            None
        }
    }
}

impl IpAddress {
    /// 127.0.0.0/8 or the IPv6 loopback address.
    pub open spec fn is_loopback_spec(self) -> bool {
        match self {
            IpAddress::V4(ip) => ip.is_loopback_spec(),
            IpAddress::V6(ip) => ip.is_loopback_spec(),
        }
    }

    /// Whether the address is a loopback address.
    pub fn is_loopback(self) -> (r: bool)
        ensures
            r == self.is_loopback_spec(),
    {
        match self {
            IpAddress::V4(ip) => ip.a == 127,
            IpAddress::V6(ip) => ip.hi == 0 && ip.lo == 1,
        }
    }
}

/// The number of an address weighs its octets by their places.
pub proof fn law_number_of_an_address(ip: Ipv4)
    ensures
        ip.number_spec() / 0x1000000 == ip.a,
        ip.number_spec() / 0x10000 % 0x100 == ip.b,
        ip.number_spec() / 0x100 % 0x100 == ip.c,
        ip.number_spec() % 0x100 == ip.d,
        ip.number_spec() < 0x1_0000_0000,
{
    let n = ip.number_spec() as int;
    let a = ip.a as int;
    let b = ip.b as int;
    let c = ip.c as int;
    let d = ip.d as int;
    assert(n == 0x1000000 * a + 0x10000 * b + 0x100 * c + d);
    assert(n / 0x1000000 == a) by {
        assert(0 <= 0x10000 * b + 0x100 * c + d < 0x1000000);
    }
    assert(n / 0x10000 == 0x100 * a + b) by {
        assert(0 <= 0x100 * c + d < 0x10000);
    }
    assert((0x100 * a + b) % 0x100 == b);
    assert(n / 0x100 == 0x10000 * a + 0x100 * b + c);
    assert((0x10000 * a + 0x100 * b + c) % 0x100 == c);
    assert(n % 0x100 == d);
}

/// The private networks are 10.0.0.0/8, 172.16.0.0/12 and 192.168.0.0/16.
pub proof fn law_private_networks(ip: Ipv4)
    ensures
        ip.is_private_spec() <==> {
            let n = ip.number_spec();
            ||| 0x0a00_0000 <= n < 0x0b00_0000
            ||| 0xac10_0000 <= n < 0xac20_0000
            ||| 0xc0a8_0000 <= n < 0xc0a9_0000
        },
        ip.is_loopback_spec() <==> 0x7f00_0000 <= ip.number_spec() < 0x8000_0000,
        ip.is_link_local_spec() <==> 0xa9fe_0000 <= ip.number_spec() < 0xa9ff_0000,
        ip.is_multicast_spec() <==> 0xe000_0000 <= ip.number_spec() < 0xf000_0000,
        ip.is_unspecified_spec() <==> ip.number_spec() == 0,
        ip.is_broadcast_spec() <==> ip.number_spec() == 0xffff_ffff,
{
}

/// The text of an address is its four octets in decimal, separated by dots.
pub proof fn law_ipv4_text_has_four_numbers(ip: Ipv4)
    ensures
        split(ipv4_text(ip), '.') == seq![
            dec(ip.a as nat),
            dec(ip.b as nat),
            dec(ip.c as nat),
            dec(ip.d as nat),
        ],
{
    let parts = octet_texts(ip);
    lemma_dec(ip.a as nat);
    lemma_dec(ip.b as nat);
    lemma_dec(ip.c as nat);
    lemma_dec(ip.d as nat);
    assert forall|i: int| 0 <= i < parts.len() implies !(#[trigger] parts[i]).contains('.') by {
        assert(all_digits(parts[i]));
        assert(!is_digit('.'));
    }
    lemma_split_join(parts, '.');
}

/// An older address within the newer ones is found again.
pub proof fn law_mapped_addresses(old: Ipv4, ip: Ipv6)
    requires
        ip.hi == 0,
        ip.lo == 0xffff_0000_0000 + old.number_spec(),
    ensures
        ip.mapped_spec() == Some(old),
{
    let n = old.number_spec() as int;
    let lo = ip.lo as int;
    assert(lo == 0xffff * 0x1_0000_0000 + n);
    assert(0 <= n < 0x1_0000_0000);
    assert(lo / 0x1_0000_0000 == 0xffff);
    assert(n == 0x100_0000 * old.a + (0x1_0000 * old.b + 0x100 * old.c + old.d));
    assert(lo / 0x100_0000 == 0xffff * 0x100 + old.a);
    assert(lo / 0x1_0000 == 0xffff * 0x1_0000 + 0x100 * old.a + old.b);
    assert(lo / 0x100 == 0xffff * 0x100_0000 + 0x1_0000 * old.a + 0x100 * old.b + old.c);
    assert(lo % 0x100 == old.d);
    assert((0xffff * 0x100 + old.a) % 0x100 == old.a as int);
    assert((0xffff * 0x1_0000 + 0x100 * old.a + old.b) % 0x100 == old.b as int);
    assert((0xffff * 0x100_0000 + 0x1_0000 * old.a + 0x100 * old.b + old.c) % 0x100
        == old.c as int);
}

} // verus!
