//! The transparent proxy: its ports, its statistics and the packets that it builds.
use vstd::prelude::*;
use crate::addr::Ipv4;
use crate::octets::{
    be_bytes, be_nat, le_nat, lemma_be_bytes_len, lemma_be_bytes_of_nat, lemma_be_nat_of_bytes,
    lemma_pow256, push_be, read_be, read_le, sub_bytes,
};
use crate::server::net_setup::{TunnelNetwork, host_address, network};
use crate::server::tproxy_quota::{
    GLOBAL_JUMBO_BUFFER_LIMIT, GLOBAL_NORMAL_BUFFER_LIMIT, GLOBAL_TCP_SESSION_LIMIT,
    GLOBAL_UDP_FLOW_LIMIT, MAX_TCP_SESSION_LIMIT,
};

verus! {

/// Seconds after which an unused flow ends.
pub const UDP_FLOW_IDLE_SECS: u64 = 60;

/// Lowest port of the listeners.
pub const TPROXY_BASE_PORT: u16 = 10666;

/// Number of ports that listeners use.
pub const TPROXY_PORTS: u64 = 50000;

/// Milliseconds after which an unused connection ends.
pub const TCP_IDLE_LIMIT_MS: i64 = 600000;

/// Milliseconds after which any connection ends.
pub const TCP_HARD_LIMIT_MS: i64 = 7200000;

/// Bytes of one relay buffer of a connection.
pub const PROXY_TCP_BUFFER_BYTES: usize = 16384;

/// Bytes of a normal response buffer.
pub const PROXY_NORMAL_BUFFER_BYTES: usize = 4096;

/// Bytes of a large response buffer: any datagram fits.
pub const PROXY_JUMBO_BUFFER_BYTES: usize = 65535;

/// The port of a runtime's listener.
pub open spec fn listener_port(runtime_id: u64) -> nat {
    (TPROXY_BASE_PORT + runtime_id % TPROXY_PORTS) as nat
}

/// The port of a runtime's listener.
pub fn tproxy_port(runtime_id: u64) -> (r: u16)
    ensures
        r == listener_port(runtime_id),
        TPROXY_BASE_PORT <= r,
{
    TPROXY_BASE_PORT + (runtime_id % TPROXY_PORTS) as u16
}

/// Runtimes that are close to one another have different ports.
pub proof fn law_ports_differ(a: u64, b: u64)
    requires
        a < b,
        b - a < TPROXY_PORTS,
    ensures
        listener_port(a) != listener_port(b),
{
    let n = TPROXY_PORTS as int;
    vstd::arithmetic::div_mod::lemma_fundamental_div_mod(a as int, n);
    vstd::arithmetic::div_mod::lemma_fundamental_div_mod(b as int, n);
    if a % TPROXY_PORTS == b % TPROXY_PORTS {
        let qa = a as int / n;
        let qb = b as int / n;
        assert((b - a) as int == n * (qb - qa)) by (nonlinear_arith)
            requires
                a as int == n * qa + a as int % n,
                b as int == n * qb + b as int % n,
                a as int % n == b as int % n,
        ;
        assert(qb - qa >= 1 || qb - qa <= 0);
        assert(n * (qb - qa) >= n || n * (qb - qa) <= 0) by (nonlinear_arith)
            requires
                qb - qa >= 1 || qb - qa <= 0,
                n > 0,
        ;
    }
}

/// What the buffers of the proxy take.
#[derive(Clone, Copy, Debug, PartialEq, Eq, Structural)]
pub struct TproxyMemoryBudget {
    pub tcp_relay_bytes_per_session: u64,
    pub udp_normal_buffer_bytes: u64,
    pub udp_jumbo_buffer_bytes: u64,
    pub udp_response_bytes_at_limit: u64,
}

/// What the buffers of the proxy take: two relay buffers for each connection, and the
/// response buffers of all flows at their limits.
pub fn memory_budget() -> (r: TproxyMemoryBudget)
    ensures
        r.tcp_relay_bytes_per_session == 2 * PROXY_TCP_BUFFER_BYTES,
        r.udp_normal_buffer_bytes == PROXY_NORMAL_BUFFER_BYTES,
        r.udp_jumbo_buffer_bytes == PROXY_JUMBO_BUFFER_BYTES,
        r.udp_response_bytes_at_limit == GLOBAL_NORMAL_BUFFER_LIMIT * PROXY_NORMAL_BUFFER_BYTES
            + GLOBAL_JUMBO_BUFFER_LIMIT * PROXY_JUMBO_BUFFER_BYTES,
{
    TproxyMemoryBudget {
        tcp_relay_bytes_per_session: (PROXY_TCP_BUFFER_BYTES * 2) as u64,
        udp_normal_buffer_bytes: PROXY_NORMAL_BUFFER_BYTES as u64,
        udp_jumbo_buffer_bytes: PROXY_JUMBO_BUFFER_BYTES as u64,
        udp_response_bytes_at_limit: (GLOBAL_NORMAL_BUFFER_LIMIT * PROXY_NORMAL_BUFFER_BYTES
            + GLOBAL_JUMBO_BUFFER_LIMIT * PROXY_JUMBO_BUFFER_BYTES) as u64,
    }
}

/// The relay buffers of all connections together stay within 80 MiB at the highest
/// limit.
pub proof fn law_relay_memory_bounded()
    ensures
        MAX_TCP_SESSION_LIMIT * 2 * PROXY_TCP_BUFFER_BYTES <= 80 * 1024 * 1024,
{
}

/// Whether a connection has come to its end: unused for too long, or too old.
pub fn session_expired(last_ms: i64, start_ms: i64, now_ms: i64) -> (r: bool)
    ensures
        r == session_over(last_ms, start_ms, now_ms),
{
    now_ms as i128 - last_ms as i128 > TCP_IDLE_LIMIT_MS as i128 || now_ms as i128
        - start_ms as i128 > TCP_HARD_LIMIT_MS as i128
}

/// Only clients inside the tunnel network may use the listeners; packets from elsewhere
/// must not create connections.
pub fn allowed_client(client: Ipv4, network: &TunnelNetwork) -> (r: bool)
    ensures
        r == (client == host_address(network.prefix@, client.d)),
{
    client.a == network.prefix[0] && client.b == network.prefix[1] && client.c == network.prefix[2]
}

// ---------------------------------------------------------------------------
// Statistics
// ---------------------------------------------------------------------------

/// How the buffer pools are used.
#[derive(Clone, Copy, Debug, PartialEq, Eq, Structural)]
pub struct ProxyBufferPoolSnapshot {
    pub tcp_allocated: usize,
    pub tcp_retained: usize,
    pub normal_allocated: usize,
    pub normal_retained: usize,
    pub jumbo_allocated: usize,
    pub jumbo_retained: usize,
}

/// Running statistics of the proxy.
#[derive(Clone, Copy, Debug, PartialEq, Eq, Structural)]
pub struct TproxyStats {
    pub tcp_active: usize,
    pub udp_active: usize,
    pub tcp_peak: usize,
    pub udp_peak: usize,
    pub tcp_total: u64,
    pub udp_total: u64,
    pub tcp_budget_rejects: u64,
    pub udp_budget_rejects: u64,
    pub tcp_limit: usize,
    pub udp_limit: usize,
}

/// The statistics at one moment.
#[derive(Clone, Copy, Debug, PartialEq, Eq, Structural)]
pub struct TproxyStatsSnapshot {
    pub tcp_active: usize,
    pub udp_active: usize,
    pub tcp_peak: usize,
    pub udp_peak: usize,
    pub tcp_total: u64,
    pub udp_total: u64,
    pub tcp_budget_rejects: u64,
    pub udp_budget_rejects: u64,
    pub tcp_limit: usize,
    pub udp_limit: usize,
    pub tcp_buffer_allocated: usize,
    pub tcp_buffer_retained: usize,
    pub udp_normal_buffer_allocated: usize,
    pub udp_normal_buffer_retained: usize,
    pub udp_jumbo_buffer_allocated: usize,
    pub udp_jumbo_buffer_retained: usize,
    pub opening_buffer_allocated_bytes: usize,
}

/// The larger of two numbers.
pub open spec fn at_least(a: usize, b: usize) -> usize {
    if a >= b {
        a
    } else {
        b
    }
}

/// One more, starting over behind the largest number.
pub open spec fn next_count(n: u64) -> u64 {
    if n == u64::MAX {
        0
    } else {
        (n + 1) as u64
    }
}

impl TproxyStats {
    /// Nothing happened yet.
    pub fn new() -> (r: Self)
        ensures
            r == (TproxyStats {
                tcp_active: 0,
                udp_active: 0,
                tcp_peak: 0,
                udp_peak: 0,
                tcp_total: 0,
                udp_total: 0,
                tcp_budget_rejects: 0,
                udp_budget_rejects: 0,
                tcp_limit: GLOBAL_TCP_SESSION_LIMIT,
                udp_limit: GLOBAL_UDP_FLOW_LIMIT,
            }),
    {
        TproxyStats {
            tcp_active: 0,
            udp_active: 0,
            tcp_peak: 0,
            udp_peak: 0,
            tcp_total: 0,
            udp_total: 0,
            tcp_budget_rejects: 0,
            udp_budget_rejects: 0,
            tcp_limit: GLOBAL_TCP_SESSION_LIMIT,
            udp_limit: GLOBAL_UDP_FLOW_LIMIT,
        }
    }

    /// A connection began.
    pub fn tcp_started(&mut self)
        requires
            old(self).tcp_active < usize::MAX,
        ensures
            *final(self) == (TproxyStats {
                tcp_active: (old(self).tcp_active + 1) as usize,
                tcp_peak: at_least(old(self).tcp_peak, (old(self).tcp_active + 1) as usize),
                tcp_total: next_count(old(self).tcp_total),
                ..*old(self)
            }),
    {
        self.tcp_active = self.tcp_active + 1;
        if self.tcp_active > self.tcp_peak {
            self.tcp_peak = self.tcp_active;
        }
        self.tcp_total = self.tcp_total.wrapping_add(1);
    }

    /// A connection ended.
    pub fn tcp_finished(&mut self)
        ensures
            *final(self) == (TproxyStats {
                tcp_active: if old(self).tcp_active == 0 {
                    usize::MAX
                } else {
                    (old(self).tcp_active - 1) as usize
                },
                ..*old(self)
            }),
    {
        self.tcp_active = self.tcp_active.wrapping_sub(1);
    }

    /// A flow began.
    pub fn udp_started(&mut self)
        requires
            old(self).udp_active < usize::MAX,
        ensures
            *final(self) == (TproxyStats {
                udp_active: (old(self).udp_active + 1) as usize,
                udp_peak: at_least(old(self).udp_peak, (old(self).udp_active + 1) as usize),
                udp_total: next_count(old(self).udp_total),
                ..*old(self)
            }),
    {
        self.udp_active = self.udp_active + 1;
        if self.udp_active > self.udp_peak {
            self.udp_peak = self.udp_active;
        }
        self.udp_total = self.udp_total.wrapping_add(1);
    }

    /// A flow ended.
    pub fn udp_finished(&mut self)
        ensures
            *final(self) == (TproxyStats {
                udp_active: if old(self).udp_active == 0 {
                    usize::MAX
                } else {
                    (old(self).udp_active - 1) as usize
                },
                ..*old(self)
            }),
    {
        self.udp_active = self.udp_active.wrapping_sub(1);
    }

    /// A connection was refused.
    pub fn tcp_budget_rejected(&mut self)
        ensures
            *final(self) == (TproxyStats {
                tcp_budget_rejects: next_count(old(self).tcp_budget_rejects),
                ..*old(self)
            }),
    {
        self.tcp_budget_rejects = self.tcp_budget_rejects.wrapping_add(1);
    }

    /// A flow was refused.
    pub fn udp_budget_rejected(&mut self)
        ensures
            *final(self) == (TproxyStats {
                udp_budget_rejects: next_count(old(self).udp_budget_rejects),
                ..*old(self)
            }),
    {
        self.udp_budget_rejects = self.udp_budget_rejects.wrapping_add(1);
    }

    /// The limits changed.
    pub fn set_limits(&mut self, limits: (usize, usize))
        ensures
            *final(self) == (TproxyStats {
                tcp_limit: limits.0,
                udp_limit: limits.1,
                ..*old(self)
            }),
    {
        self.tcp_limit = limits.0;
        self.udp_limit = limits.1;
    }

    /// The statistics with the use of the buffer pools, as far as there are pools.
    pub fn snapshot(
        &self,
        buffers: Option<ProxyBufferPoolSnapshot>,
        opening_bytes: Option<usize>,
    ) -> (r: TproxyStatsSnapshot)
        ensures
            ({
                let b = match buffers {
                    Some(b) => b,
                    None => ProxyBufferPoolSnapshot {
                        tcp_allocated: 0,
                        tcp_retained: 0,
                        normal_allocated: 0,
                        normal_retained: 0,
                        jumbo_allocated: 0,
                        jumbo_retained: 0,
                    },
                };
                r == TproxyStatsSnapshot {
                    tcp_active: self.tcp_active,
                    udp_active: self.udp_active,
                    tcp_peak: self.tcp_peak,
                    udp_peak: self.udp_peak,
                    tcp_total: self.tcp_total,
                    udp_total: self.udp_total,
                    tcp_budget_rejects: self.tcp_budget_rejects,
                    udp_budget_rejects: self.udp_budget_rejects,
                    tcp_limit: self.tcp_limit,
                    udp_limit: self.udp_limit,
                    tcp_buffer_allocated: b.tcp_allocated,
                    tcp_buffer_retained: b.tcp_retained,
                    udp_normal_buffer_allocated: b.normal_allocated,
                    udp_normal_buffer_retained: b.normal_retained,
                    udp_jumbo_buffer_allocated: b.jumbo_allocated,
                    udp_jumbo_buffer_retained: b.jumbo_retained,
                    opening_buffer_allocated_bytes: match opening_bytes {
                        Some(n) => n,
                        None => 0,
                    },
                }
            }),
    {
        let b = match buffers {
            Some(b) => b,
            None => ProxyBufferPoolSnapshot {
                tcp_allocated: 0,
                tcp_retained: 0,
                normal_allocated: 0,
                normal_retained: 0,
                jumbo_allocated: 0,
                jumbo_retained: 0,
            },
        };
        TproxyStatsSnapshot {
            tcp_active: self.tcp_active,
            udp_active: self.udp_active,
            tcp_peak: self.tcp_peak,
            udp_peak: self.udp_peak,
            tcp_total: self.tcp_total,
            udp_total: self.udp_total,
            tcp_budget_rejects: self.tcp_budget_rejects,
            udp_budget_rejects: self.udp_budget_rejects,
            tcp_limit: self.tcp_limit,
            udp_limit: self.udp_limit,
            tcp_buffer_allocated: b.tcp_allocated,
            tcp_buffer_retained: b.tcp_retained,
            udp_normal_buffer_allocated: b.normal_allocated,
            udp_normal_buffer_retained: b.normal_retained,
            udp_jumbo_buffer_allocated: b.jumbo_allocated,
            udp_jumbo_buffer_retained: b.jumbo_retained,
            opening_buffer_allocated_bytes: match opening_bytes {
                Some(n) => n,
                None => 0,
            },
        }
    }
}

impl Default for TproxyStats {
    fn default() -> (r: Self)
        ensures
            r.tcp_active == 0,
            r.udp_active == 0,
            r.tcp_peak == 0,
            r.udp_peak == 0,
            r.tcp_total == 0,
            r.udp_total == 0,
            r.tcp_budget_rejects == 0,
            r.udp_budget_rejects == 0,
            r.tcp_limit == GLOBAL_TCP_SESSION_LIMIT,
            r.udp_limit == GLOBAL_UDP_FLOW_LIMIT,
    {
        TproxyStats::new()
    }
}

// ---------------------------------------------------------------------------
// Packets
// ---------------------------------------------------------------------------

/// The sum of the big-endian words of a header.
pub open spec fn words_sum(s: Seq<u8>) -> nat
    decreases s.len(),
{
    if s.len() < 2 {
        0
    } else {
        words_sum(s.take(s.len() - 2)) + s[s.len() - 2] as nat * 256 + s[s.len() - 1] as nat
    }
}

/// A sum with its carries added back until it fits into sixteen bits.
pub open spec fn folded(n: nat) -> nat
    decreases n,
{
    if n < 65536 {
        n
    } else {
        folded(n % 65536 + n / 65536)
    }
}

/// The Internet checksum of a header.
pub open spec fn checksum_of(s: Seq<u8>) -> nat {
    (65535 - folded(words_sum(s))) as nat
}

/// Folding keeps the sum modulo 65535, and keeps it from becoming zero.
pub proof fn lemma_folded(n: nat)
    ensures
        folded(n) < 65536,
        folded(n) % 65535 == n % 65535,
        n > 0 ==> folded(n) > 0,
    decreases n,
{
    if n >= 65536 {
        let m = n % 65536 + n / 65536;
        lemma_folded(m);
        assert(n == 65536 * (n / 65536) + n % 65536);
        let k = n / 65536;
        vstd::arithmetic::div_mod::lemma_mod_multiples_vanish(k as int, m as int, 65535);
        assert(65535 * k + m == n);
    }
}

/// The Internet checksum of a header of an even number of bytes.
pub fn calc_checksum(header: &[u8]) -> (r: u16)
    requires
        header@.len() % 2 == 0,
        header@.len() <= 131072,
    ensures
        r == checksum_of(header@),
{
    let mut sum: u32 = 0;
    let mut i: usize = 0;
    proof {
        assert(header@.take(0).len() == 0);
    }
    while i < header.len()
        invariant
            i <= header@.len(),
            i % 2 == 0,
            header@.len() % 2 == 0,
            header@.len() <= 131072,
            sum == words_sum(header@.take(i as int)),
            sum <= (i / 2) * 65535,
        decreases header@.len() - i,
    {
        proof {
            let t = header@.take(i as int + 2);
            assert(t.take(t.len() - 2) =~= header@.take(i as int));
            assert(t[t.len() - 2] == header@[i as int]);
            assert(t[t.len() - 1] == header@[i + 1]);
        }
        sum = sum + (header[i] as u32 * 256 + header[i + 1] as u32);
        i = i + 2;
    }
    proof {
        assert(header@.take(i as int) =~= header@);
    }
    let ghost all = sum as nat;
    while sum >= 65536
        invariant
            folded(sum as nat) == folded(all),
        decreases sum,
    {
        sum = sum % 65536 + sum / 65536;
    }
    (65535 - sum) as u16
}

/// Listeners take the ports from 10666 to 60665, and runtimes that follow each other take
/// ports that do.
pub proof fn law_ports_follow_runtimes(runtime_id: u64)
    ensures
        10666 <= listener_port(runtime_id) <= 60665,
        runtime_id < 50000 ==> listener_port(runtime_id) == 10666 + runtime_id,
        runtime_id < u64::MAX && listener_port(runtime_id) < 60665 ==> listener_port(
            (runtime_id + 1) as u64,
        ) == listener_port(runtime_id) + 1,
        runtime_id < u64::MAX && listener_port(runtime_id) == 60665 ==> listener_port(
            (runtime_id + 1) as u64,
        ) == 10666,
{
}

/// Totals count one by one and start over after the largest number; a peak is the larger
/// of two counts.
pub proof fn law_counts_and_peaks(n: u64, a: usize, b: usize)
    ensures
        next_count(n) as int == (n + 1) % 0x1_0000_0000_0000_0000,
        at_least(a, b) >= a,
        at_least(a, b) >= b,
        at_least(a, b) == a || at_least(a, b) == b,
{
}

/// A header whose checksum field holds the checksum of the rest sums up to all ones,
/// which is how a receiver checks it.
pub proof fn law_checksum_verifies(sum: nat)
    requires
        sum > 0,
    ensures
        folded(sum + (65535 - folded(sum)) as nat) == 65535,
{
    lemma_folded(sum);
    let c = (65535 - folded(sum)) as nat;
    let n = sum + c;
    lemma_folded(n);
    let q = sum / 65535;
    let f = folded(sum);
    // Both leave the same remainder, so the difference is a multiple of 65535.
    assert(n % 65535 == 0) by {
        if f == 65535 {
            assert(f % 65535 == 0);
            assert(sum % 65535 == 0);
            assert(n == sum);
        } else {
            assert(f % 65535 == f);
            assert(sum == 65535 * q + f);
            assert(n == 65535 * (q + 1));
            vstd::arithmetic::div_mod::lemma_mod_multiples_basic((q + 1) as int, 65535);
        }
    }
    assert(folded(n) % 65535 == 0);
    assert(folded(n) > 0);
}

/// The IPv4 and UDP headers of a reply, without the IPv4 checksum.
pub open spec fn reply_header_blank(
    source: Ipv4,
    dest: Ipv4,
    source_port: u16,
    dest_port: u16,
    payload_len: nat,
) -> Seq<u8> {
    seq![0x45u8, 0] + be_bytes(payload_len + 28, 2) + seq![0u8, 0, 0, 0, 64, 17, 0, 0]
        + source.octets_spec() + dest.octets_spec() + be_bytes(source_port as nat, 2) + be_bytes(
        dest_port as nat,
        2,
    ) + be_bytes(payload_len + 8, 2) + seq![0u8, 0]
}

/// The IPv4 and UDP headers of a reply.
pub open spec fn reply_header(
    source: Ipv4,
    dest: Ipv4,
    source_port: u16,
    dest_port: u16,
    payload_len: nat,
) -> Seq<u8> {
    let blank = reply_header_blank(source, dest, source_port, dest_port, payload_len);
    let sum = be_bytes(checksum_of(blank.take(20)), 2);
    blank.update(10, sum[0]).update(11, sum[1])
}

/// Filling an empty word of a header adds that word to the sum of its words.
proof fn lemma_words_sum_filled(s: Seq<u8>, i: int, x: u8, y: u8)
    requires
        0 <= i,
        2 * i + 2 <= s.len(),
        s.len() % 2 == 0,
        s[2 * i] == 0,
        s[2 * i + 1] == 0,
    ensures
        words_sum(s.update(2 * i, x).update(2 * i + 1, y)) == words_sum(s) + x as nat * 256
            + y as nat,
    decreases s.len(),
{
    let t = s.update(2 * i, x).update(2 * i + 1, y);
    let head = s.take(s.len() - 2);
    if 2 * i + 2 == s.len() {
        assert(t.take(t.len() - 2) =~= head);
    } else {
        lemma_words_sum_filled(head, i, x, y);
        assert(t.take(t.len() - 2) =~= head.update(2 * i, x).update(2 * i + 1, y));
    }
}

/// The headers of a reply, read back field by field: an IPv4 header without options that
/// carries UDP from the destination that the client spoke to, both lengths covering the
/// payload, and an IPv4 header whose words sum up to all ones.
pub proof fn law_reply_header_fields(
    source: Ipv4,
    dest: Ipv4,
    source_port: u16,
    dest_port: u16,
    payload_len: nat,
)
    requires
        payload_len + 28 <= 65535,
    ensures
        ({
            let h = reply_header(source, dest, source_port, dest_port, payload_len);
            &&& h.len() == 28
            &&& h[0] == 0x45
            &&& h[1] == 0
            &&& be_nat(h.subrange(2, 4)) == payload_len + 28
            &&& be_nat(h.subrange(4, 8)) == 0
            &&& h[8] == 64
            &&& h[9] == 17
            &&& h[12] == source.a && h[13] == source.b && h[14] == source.c && h[15] == source.d
            &&& h[16] == dest.a && h[17] == dest.b && h[18] == dest.c && h[19] == dest.d
            &&& be_nat(h.subrange(20, 22)) == source_port
            &&& be_nat(h.subrange(22, 24)) == dest_port
            &&& be_nat(h.subrange(24, 26)) == payload_len + 8
            &&& be_nat(h.subrange(26, 28)) == 0
            &&& folded(words_sum(h.take(20))) == 65535
        }),
{
    let h = reply_header(source, dest, source_port, dest_port, payload_len);
    let blank = reply_header_blank(source, dest, source_port, dest_port, payload_len);
    lemma_pow256();
    lemma_be_nat_of_bytes(payload_len + 28, 2);
    lemma_be_nat_of_bytes(source_port as nat, 2);
    lemma_be_nat_of_bytes(dest_port as nat, 2);
    lemma_be_nat_of_bytes(payload_len + 8, 2);
    assert(blank.len() == 28);
    assert(h.subrange(2, 4) =~= be_bytes(payload_len + 28, 2));
    assert(h.subrange(20, 22) =~= be_bytes(source_port as nat, 2));
    assert(h.subrange(22, 24) =~= be_bytes(dest_port as nat, 2));
    assert(h.subrange(24, 26) =~= be_bytes(payload_len + 8, 2));
    assert(h.subrange(4, 8) =~= seq![0u8, 0, 0, 0]);
    assert(h.subrange(26, 28) =~= seq![0u8, 0]);
    reveal_with_fuel(be_nat, 5);
    assert(seq![0u8, 0, 0, 0].drop_last() =~= seq![0u8, 0, 0]);
    assert(seq![0u8, 0, 0].drop_last() =~= seq![0u8, 0]);
    assert(seq![0u8, 0].drop_last() =~= seq![0u8]);
    assert(be_nat(seq![0u8]) == 0) by {
        assert(seq![0u8].drop_last() =~= Seq::<u8>::empty());
    }
    let head = blank.take(20);
    let total = words_sum(head);
    lemma_folded(total);
    let c = checksum_of(head);
    lemma_be_nat_of_bytes(c, 2);
    let sum = be_bytes(c, 2);
    assert(sum.drop_last() =~= seq![sum[0]]);
    assert(seq![sum[0]].drop_last() =~= Seq::<u8>::empty());
    assert(be_nat(seq![sum[0]]) == sum[0] as nat);
    assert(be_nat(sum) == 256 * sum[0] as nat + sum[1] as nat);
    assert(h.take(20) =~= head.update(10, sum[0]).update(11, sum[1]));
    lemma_words_sum_filled(head, 5, sum[0], sum[1]);
    assert(total > 0) by {
        reveal_with_fuel(words_sum, 11);
        let t = head.take(18).take(16).take(14).take(12).take(10).take(8).take(6).take(4).take(2);
        assert(t[0] == 0x45);
    }
    law_checksum_verifies(total);
}

/// Builds the headers of a reply that looks as if it came from the destination itself. A
/// payload that does not fit into a packet has none.
pub fn build_reply_header(
    source: Ipv4,
    dest: Ipv4,
    source_port: u16,
    dest_port: u16,
    payload_len: usize,
) -> (r: Option<Vec<u8>>)
    ensures
        payload_len + 28 > 65535 ==> r is None,
        payload_len + 28 <= 65535 ==> r is Some && r->0@ == reply_header(
            source,
            dest,
            source_port,
            dest_port,
            payload_len as nat,
        ) && r->0@.len() == 28,
{
    if payload_len > 65507 {
        return None;
    }
    let mut p: Vec<u8> = Vec::new();
    p.push(0x45);
    p.push(0);
    push_be(&mut p, payload_len as u64 + 28, 2);
    p.push(0);
    p.push(0);
    p.push(0);
    p.push(0);
    p.push(64);
    p.push(17);
    p.push(0);
    p.push(0);
    p.push(source.a);
    p.push(source.b);
    p.push(source.c);
    p.push(source.d);
    p.push(dest.a);
    p.push(dest.b);
    p.push(dest.c);
    p.push(dest.d);
    push_be(&mut p, source_port as u64, 2);
    push_be(&mut p, dest_port as u64, 2);
    push_be(&mut p, payload_len as u64 + 8, 2);
    p.push(0);
    p.push(0);
    let ghost blank = reply_header_blank(source, dest, source_port, dest_port, payload_len as nat);
    proof {
        lemma_be_bytes_len(payload_len as nat + 28, 2);
        lemma_be_bytes_len(source_port as nat, 2);
        lemma_be_bytes_len(dest_port as nat, 2);
        lemma_be_bytes_len(payload_len as nat + 8, 2);
        assert(p@ =~= blank);
        assert(blank.subrange(0, 20) =~= blank.take(20));
    }
    let head = sub_bytes(p.as_slice(), 0, 20);
    let sum: u16 = calc_checksum(head.as_slice());
    let mut bytes: Vec<u8> = Vec::new();
    push_be(&mut bytes, sum as u64, 2);
    proof {
        lemma_be_bytes_len(sum as nat, 2);
        assert(bytes@ =~= be_bytes(sum as nat, 2));
    }
    p.set(10, bytes[0]);
    p.set(11, bytes[1]);
    Some(p)
}

/// Length of a control message header.
pub const CMSG_HEADER: usize = 16;

/// Length of an IPv4 socket address.
pub const SOCKADDR_LEN: usize = 16;

/// Type of the control message that holds the original destination.
pub const IP_RECVORIGDSTADDR: u64 = 20;

/// Address family of IPv4.
pub const AF_INET: u64 = 2;

/// The original destination in the first control message of some bytes, where that
/// message is whole and of the right kind.
pub open spec fn destination_in_head(control: Seq<u8>, length: int) -> Option<(Ipv4, u16)> {
    if le_nat(control.subrange(8, 12)) == 0 && le_nat(control.subrange(12, 16))
        == IP_RECVORIGDSTADDR && length >= CMSG_HEADER + SOCKADDR_LEN && le_nat(
        control.subrange(16, 18),
    ) == AF_INET {
        Some(
            (
                Ipv4 { a: control[20], b: control[21], c: control[22], d: control[23] },
                be_nat(control.subrange(18, 20)) as u16,
            ),
        )
    } else {
        None
    }
}

/// Where the next control message begins: behind this one, at a multiple of four bytes.
pub open spec fn next_message(control: Seq<u8>, length: int) -> int {
    let end = (length + 3) / 4 * 4;
    if end < control.len() {
        end
    } else {
        control.len() as int
    }
}

/// The original destination among control messages. The layout is that of 64-bit
/// little-endian Linux.
pub open spec fn original_destination(control: Seq<u8>) -> Option<(Ipv4, u16)>
    decreases control.len(),
{
    if control.len() < CMSG_HEADER {
        None
    } else {
        let length = le_nat(control.subrange(0, 8)) as int;
        if length < CMSG_HEADER || length > control.len() {
            None
        } else {
            match destination_in_head(control, length) {
                Some(found) => Some(found),
                None => original_destination(control.skip(next_message(control, length))),
            }
        }
    }
}

/// What the kernel notes about a datagram is read where it stands: the port in network
/// order at byte eighteen and the address behind it. A message of another kind is passed
/// over, up to the next multiple of four bytes.
pub proof fn law_original_destination_is_read(control: Seq<u8>, length: int, next: int)
    requires
        control.len() >= 16,
        le_nat(control.subrange(0, 8)) == length,
        16 <= length <= control.len(),
        length <= next < length + 4,
        next % 4 == 0,
    ensures
        length >= 32 && le_nat(control.subrange(8, 12)) == 0 && le_nat(control.subrange(12, 16))
            == 20 && le_nat(control.subrange(16, 18)) == 2 ==> ({
            &&& original_destination(control) matches Some((ip, port))
            &&& ip.octets_spec() == control.subrange(20, 24)
            &&& port as nat == be_nat(control.subrange(18, 20))
        }),
        length < 32 || le_nat(control.subrange(8, 12)) != 0 || le_nat(control.subrange(12, 16))
            != 20 || le_nat(control.subrange(16, 18)) != 2 ==> original_destination(control)
            == original_destination(
            if next < control.len() {
                control.skip(next)
            } else {
                Seq::empty()
            },
        ),
{
    lemma_pow256();
    if length >= 32 {
        lemma_be_bytes_of_nat(control.subrange(18, 20));
        assert(Ipv4 { a: control[20], b: control[21], c: control[22], d: control[23] }.octets_spec()
            =~= control.subrange(20, 24));
    }
    assert(control.skip(control.len() as int) =~= Seq::<u8>::empty());
}

/// Without a whole message there is no destination.
pub proof fn law_no_destination_without_a_message(control: Seq<u8>)
    requires
        control.len() < 16 || le_nat(control.subrange(0, 8)) < 16 || le_nat(
            control.subrange(0, 8),
        ) > control.len(),
    ensures
        original_destination(control) is None,
{
}

/// Finds the original destination among control messages.
pub fn parse_orig_dst(control: &[u8]) -> (r: Option<(Ipv4, u16)>)
    ensures
        r == original_destination(control@),
{
    let n: usize = control.len();
    let mut at: usize = 0;
    proof {
        assert(control@.skip(0) =~= control@);
    }
    while n - at >= CMSG_HEADER
        invariant
            at <= n == control@.len(),
            original_destination(control@) == original_destination(control@.skip(at as int)),
        decreases n - at,
    {
        let ghost rest = control@.skip(at as int);
        proof {
            assert(rest.subrange(0, 8) =~= control@.subrange(at as int, at + 8));
            assert(rest.subrange(8, 12) =~= control@.subrange(at + 8, at + 12));
            assert(rest.subrange(12, 16) =~= control@.subrange(at + 12, at + 16));
        }
        let length: u64 = read_le(control, at, at + 8);
        if length < CMSG_HEADER as u64 || length > (n - at) as u64 {
            return None;
        }
        let len: usize = length as usize;
        let level: u64 = read_le(control, at + 8, at + 12);
        let kind: u64 = read_le(control, at + 12, at + 16);
        if level == 0 && kind == IP_RECVORIGDSTADDR && len >= CMSG_HEADER + SOCKADDR_LEN {
            proof {
                assert(rest.subrange(16, 18) =~= control@.subrange(at + 16, at + 18));
                assert(rest.subrange(18, 20) =~= control@.subrange(at + 18, at + 20));
            }
            let family: u64 = read_le(control, at + 16, at + 18);
            if family == AF_INET {
                let port: u64 = read_be(control, at + 18, at + 20);
                let ip = Ipv4 {
                    a: control[at + 20],
                    b: control[at + 21],
                    c: control[at + 22],
                    d: control[at + 23],
                };
                return Some((ip, port as u16));
            }
        }
        let spare: usize = len % 4;
        let pad: usize = if spare == 0 {
            0
        } else {
            4 - spare
        };
        let left: usize = n - at - len;
        let step: usize = if pad < left {
            len + pad
        } else {
            n - at
        };
        proof {
            assert(step == next_message(rest, len as int));
            assert(rest.skip(step as int) =~= control@.skip(at + step));
        }
        at = at + step;
    }
    None
}

/// Whether a reply that could not be sent is reported, as failure number `errors`: the
/// first is, and every thousandth.
pub fn reply_error_reported(errors: u64) -> (r: bool)
    ensures
        r == (errors == 1 || errors % 1000 == 0),
{
    errors == 1 || errors % 1000 == 0
}

/// Whether a session has been silent or open for too long.
pub open spec fn session_over(last_ms: i64, start_ms: i64, now_ms: i64) -> bool {
    now_ms - last_ms > TCP_IDLE_LIMIT_MS || now_ms - start_ms > TCP_HARD_LIMIT_MS
}

/// A session ends after ten minutes of silence and after two hours in any case.
pub proof fn law_sessions_end_in_time(last_ms: i64, start_ms: i64, now_ms: i64)
    ensures
        now_ms > last_ms + 600000 ==> session_over(last_ms, start_ms, now_ms),
        now_ms > start_ms + 7200000 ==> session_over(last_ms, start_ms, now_ms),
        now_ms <= last_ms + 600000 && now_ms <= start_ms + 7200000 ==> !session_over(
            last_ms,
            start_ms,
            now_ms,
        ),
{
}

} // verus!
