//! How many proxied connections, flows and buffers each device may have.
use vstd::prelude::*;
use crate::addr::{Ipv4, law_number_of_an_address, lemma_ipv4_number_injective};
use crate::shard_map::{map_entries, map_get, map_insert, map_new};
use dashmap::DashMap;

verus! {

/// Limits at the start.
pub const GLOBAL_TCP_SESSION_LIMIT: usize = 384;

pub const GLOBAL_UDP_FLOW_LIMIT: usize = 784;

/// Limits once the first were reached.
pub const EXPANDED_TCP_SESSION_LIMIT: usize = 1512;

pub const EXPANDED_UDP_FLOW_LIMIT: usize = 2048;

/// Limits with enough free memory.
pub const MEMORY_EXPANDED_TCP_SESSION_LIMIT: usize = 1784;

pub const MEMORY_EXPANDED_UDP_FLOW_LIMIT: usize = 2384;

/// Limits with plenty of free memory.
pub const MAX_TCP_SESSION_LIMIT: usize = 2384;

pub const MAX_UDP_FLOW_LIMIT: usize = 4096;

/// Free memory that counts as enough: 512 MiB.
pub const MEMORY_EXPANSION_THRESHOLD_BYTES: u64 = 536870912;

/// Free memory that counts as plenty: 1200 MiB.
pub const MAX_MEMORY_EXPANSION_THRESHOLD_BYTES: u64 = 1258291200;

/// Limits of one device.
pub const DEVICE_TCP_SESSION_LIMIT: usize = 160;

pub const DEVICE_UDP_FLOW_LIMIT: usize = 320;

/// What every device may have however many there are.
pub const DEVICE_TCP_FLOOR: usize = 20;

pub const DEVICE_UDP_FLOOR: usize = 40;

/// Response buffers of one device.
pub const DEVICE_NORMAL_BUFFER_LIMIT: usize = 4;

pub const DEVICE_JUMBO_BUFFER_LIMIT: usize = 1;

/// Response buffers of all devices.
pub const GLOBAL_NORMAL_BUFFER_LIMIT: usize = 32;

pub const GLOBAL_JUMBO_BUFFER_LIMIT: usize = 16;

// ---------------------------------------------------------------------------
// Limits
// ---------------------------------------------------------------------------

/// The share of a device: an equal part of the global limit, not below the floor and not
/// above the device's own limit.
pub open spec fn device_share(global: nat, device: nat, floor: nat, active: nat) -> nat {
    let n = if active == 0 {
        1
    } else {
        active
    };
    let part = global / n;
    let raised = if part < floor {
        floor
    } else {
        part
    };
    if raised > device {
        device
    } else {
        raised
    }
}

/// The share of a device.
pub fn adaptive_device_limit(
    global_limit: usize,
    device_limit: usize,
    device_floor: usize,
    active_devices: usize,
) -> (r: usize)
    ensures
        r == device_share(
            global_limit as nat,
            device_limit as nat,
            device_floor as nat,
            active_devices as nat,
        ),
{
    let n: usize = if active_devices == 0 {
        1
    } else {
        active_devices
    };
    let part: usize = global_limit / n;
    let raised: usize = if part < device_floor {
        device_floor
    } else {
        part
    };
    if raised > device_limit {
        device_limit
    } else {
        raised
    }
}

/// Every device has its floor, none has more than its limit, and more devices never give
/// one of them more.
pub proof fn law_device_share_fair(global: nat, device: nat, floor: nat, a: nat, b: nat)
    requires
        floor <= device,
        a <= b,
    ensures
        floor <= device_share(global, device, floor, a) <= device,
        device_share(global, device, floor, b) <= device_share(global, device, floor, a),
{
    let x: nat = if a == 0 {
        1
    } else {
        a
    };
    let y: nat = if b == 0 {
        1
    } else {
        b
    };
    assert(global / y <= global / x) by (nonlinear_arith)
        requires
            0 < x <= y,
    ;
}

/// The limits after they were reached: raised once without a condition, and further where
/// memory allows.
pub open spec fn raised_limits(current: (usize, usize), memory: Option<u64>) -> (usize, usize) {
    if current.0 < EXPANDED_TCP_SESSION_LIMIT || current.1 < EXPANDED_UDP_FLOW_LIMIT {
        (EXPANDED_TCP_SESSION_LIMIT, EXPANDED_UDP_FLOW_LIMIT)
    } else if memory is Some && memory->0 >= MAX_MEMORY_EXPANSION_THRESHOLD_BYTES && (current.0
        < MAX_TCP_SESSION_LIMIT || current.1 < MAX_UDP_FLOW_LIMIT) {
        (MAX_TCP_SESSION_LIMIT, MAX_UDP_FLOW_LIMIT)
    } else if memory is Some && memory->0 >= MEMORY_EXPANSION_THRESHOLD_BYTES && (current.0
        < MEMORY_EXPANDED_TCP_SESSION_LIMIT || current.1 < MEMORY_EXPANDED_UDP_FLOW_LIMIT) {
        (MEMORY_EXPANDED_TCP_SESSION_LIMIT, MEMORY_EXPANDED_UDP_FLOW_LIMIT)
    } else {
        current
    }
}

/// The current limits: sessions and flows.
#[derive(Clone, Copy, Debug, PartialEq, Eq, Structural)]
pub struct ProxyCapacity {
    pub tcp_limit: usize,
    pub udp_limit: usize,
}

/// How often limits were raised; limits are always those of one of the stages.
pub open spec fn stage_of(limits: (usize, usize)) -> Option<nat> {
    if limits == (GLOBAL_TCP_SESSION_LIMIT, GLOBAL_UDP_FLOW_LIMIT) {
        Some(0)
    } else if limits == (EXPANDED_TCP_SESSION_LIMIT, EXPANDED_UDP_FLOW_LIMIT) {
        Some(1)
    } else if limits == (MEMORY_EXPANDED_TCP_SESSION_LIMIT, MEMORY_EXPANDED_UDP_FLOW_LIMIT) {
        Some(2)
    } else if limits == (MAX_TCP_SESSION_LIMIT, MAX_UDP_FLOW_LIMIT) {
        Some(3)
    } else {
        None
    }
}

impl ProxyCapacity {
    /// The limits are those of one of the stages.
    pub open spec fn wf(self) -> bool {
        stage_of((self.tcp_limit, self.udp_limit)) is Some
    }

    /// The limits at the start.
    pub fn new() -> (r: Self)
        ensures
            r.wf(),
            r.tcp_limit == GLOBAL_TCP_SESSION_LIMIT,
            r.udp_limit == GLOBAL_UDP_FLOW_LIMIT,
    {
        ProxyCapacity { tcp_limit: GLOBAL_TCP_SESSION_LIMIT, udp_limit: GLOBAL_UDP_FLOW_LIMIT }
    }

    /// The current limits.
    pub fn limits(&self) -> (r: (usize, usize))
        ensures
            r == (self.tcp_limit, self.udp_limit),
    {
        (self.tcp_limit, self.udp_limit)
    }

    /// Goes back to the limits at the start.
    pub fn reset(&mut self)
        ensures
            final(self).wf(),
            final(self).tcp_limit == GLOBAL_TCP_SESSION_LIMIT,
            final(self).udp_limit == GLOBAL_UDP_FLOW_LIMIT,
    {
        self.tcp_limit = GLOBAL_TCP_SESSION_LIMIT;
        self.udp_limit = GLOBAL_UDP_FLOW_LIMIT;
    }

    /// Raises the limits where possible; tells whether they were raised.
    pub fn try_expand(&mut self, available_memory: Option<u64>) -> (r: bool)
        requires
            old(self).wf(),
        ensures
            final(self).wf(),
            ({
                let before = (old(self).tcp_limit, old(self).udp_limit);
                let after = raised_limits(before, available_memory);
                &&& (final(self).tcp_limit, final(self).udp_limit) == after
                &&& r == (after != before)
            }),
    {
        let current = self.limits();
        let next = ProxyCapacity::next_limits(current, available_memory);
        if next.0 == current.0 && next.1 == current.1 {
            return false;
        }
        self.tcp_limit = next.0;
        self.udp_limit = next.1;
        true
    }

    /// The limits that follow the given ones.
    pub fn next_limits(current: (usize, usize), available_memory: Option<u64>) -> (r: (
        usize,
        usize,
    ))
        ensures
            r == raised_limits(current, available_memory),
    {
        if current.0 < EXPANDED_TCP_SESSION_LIMIT || current.1 < EXPANDED_UDP_FLOW_LIMIT {
            return (EXPANDED_TCP_SESSION_LIMIT, EXPANDED_UDP_FLOW_LIMIT);
        }
        if let Some(bytes) = available_memory {
            if bytes >= MAX_MEMORY_EXPANSION_THRESHOLD_BYTES && (current.0 < MAX_TCP_SESSION_LIMIT
                || current.1 < MAX_UDP_FLOW_LIMIT) {
                return (MAX_TCP_SESSION_LIMIT, MAX_UDP_FLOW_LIMIT);
            }
            if bytes >= MEMORY_EXPANSION_THRESHOLD_BYTES && (current.0
                < MEMORY_EXPANDED_TCP_SESSION_LIMIT || current.1 < MEMORY_EXPANDED_UDP_FLOW_LIMIT) {
                return (MEMORY_EXPANDED_TCP_SESSION_LIMIT, MEMORY_EXPANDED_UDP_FLOW_LIMIT);
            }
        }
        current
    }
}

/// Raising never lowers a limit and leads from stage to stage, so it comes to an end.
pub proof fn law_limits_only_rise(current: (usize, usize), memory: Option<u64>)
    requires
        stage_of(current) is Some,
    ensures
        raised_limits(current, memory).0 >= current.0,
        raised_limits(current, memory).1 >= current.1,
        stage_of(raised_limits(current, memory)) is Some,
        raised_limits(current, memory) != current ==> stage_of(raised_limits(current, memory))->0
            > stage_of(current)->0,
{
}

// ---------------------------------------------------------------------------
// Devices
// ---------------------------------------------------------------------------

/// What one device has at present.
#[derive(Clone, Copy, Debug, PartialEq, Eq, Structural)]
pub struct DeviceQuota {
    pub tcp_active: usize,
    pub udp_active: usize,
    pub normal_buffers: usize,
    pub jumbo_buffers: usize,
    pub cancelled: bool,
}

/// What all devices have at present.
#[derive(Clone, Copy, Debug, PartialEq, Eq, Structural)]
pub struct AdmissionState {
    pub tcp_active: usize,
    pub udp_active: usize,
    pub normal_buffers: usize,
    pub jumbo_buffers: usize,
}

/// Nothing.
pub open spec fn no_admissions() -> AdmissionState {
    AdmissionState { tcp_active: 0, udp_active: 0, normal_buffers: 0, jumbo_buffers: 0 }
}

/// A device that has nothing.
pub open spec fn fresh_quota() -> DeviceQuota {
    DeviceQuota {
        tcp_active: 0,
        udp_active: 0,
        normal_buffers: 0,
        jumbo_buffers: 0,
        cancelled: false,
    }
}

/// Why a connection or a flow was refused.
#[derive(Clone, Copy, Debug, PartialEq, Eq, Structural)]
pub enum AdmissionError {
    /// The device is not known.
    Inactive,
    /// The device has its share.
    DeviceLimit,
    /// All devices together are at the limit.
    GlobalLimit,
}

/// A session that can be ended in favour of a new one.
#[derive(Clone, Copy, Debug, PartialEq, Eq, Structural)]
pub struct TcpSlot {
    pub session_id: u64,
    pub evicting: bool,
}

/// The right to one connection.
#[derive(Clone, Copy, Debug, PartialEq, Eq, Structural)]
pub struct TcpQuotaLease {
    pub device: usize,
    pub session_id: u64,
}

/// The right to one flow.
#[derive(Clone, Copy, Debug, PartialEq, Eq, Structural)]
pub struct UdpQuotaLease {
    pub device: usize,
}

/// The quotas of all devices.
pub struct DeviceQuotaRegistry {
    pub by_ip: DashMap<(u64, u64), u64>,
    pub quotas: Vec<DeviceQuota>,
    pub admission: AdmissionState,
    pub capacity: ProxyCapacity,
    pub evictions: Vec<TcpSlot>,
    pub next_tcp_eviction: u64,
}

/// The key of an address.
pub open spec fn ip_key(ip: Ipv4) -> (u64, u64) {
    (ip.number_spec() as u64, 0)
}

/// Number of devices that share the limit for connections: those with one, and `current`.
pub open spec fn tcp_sharers(quotas: Seq<DeviceQuota>, current: int) -> nat
    decreases quotas.len(),
{
    if quotas.len() == 0 {
        0
    } else {
        tcp_sharers(quotas.drop_last(), current) + (if quotas.len() - 1 == current
            || quotas.last().tcp_active != 0 {
            1nat
        } else {
            0nat
        })
    }
}

/// Number of devices that share the limit for flows: those with one, and `current`.
pub open spec fn udp_sharers(quotas: Seq<DeviceQuota>, current: int) -> nat
    decreases quotas.len(),
{
    if quotas.len() == 0 {
        0
    } else {
        udp_sharers(quotas.drop_last(), current) + (if quotas.len() - 1 == current
            || quotas.last().udp_active != 0 {
            1nat
        } else {
            0nat
        })
    }
}

/// What stands against one more connection of a device under a limit.
pub open spec fn tcp_verdict(
    quotas: Seq<DeviceQuota>,
    total: usize,
    device: int,
    limit: usize,
) -> Option<AdmissionError> {
    let share = device_share(
        limit as nat,
        DEVICE_TCP_SESSION_LIMIT as nat,
        DEVICE_TCP_FLOOR as nat,
        tcp_sharers(quotas, device),
    );
    if quotas[device].tcp_active >= share {
        Some(AdmissionError::DeviceLimit)
    } else if total >= limit {
        Some(AdmissionError::GlobalLimit)
    } else {
        None
    }
}

/// What stands against one more flow of a device under a limit.
pub open spec fn udp_verdict(
    quotas: Seq<DeviceQuota>,
    total: usize,
    device: int,
    limit: usize,
) -> Option<AdmissionError> {
    let share = device_share(
        limit as nat,
        DEVICE_UDP_FLOW_LIMIT as nat,
        DEVICE_UDP_FLOOR as nat,
        udp_sharers(quotas, device),
    );
    if quotas[device].udp_active >= share {
        Some(AdmissionError::DeviceLimit)
    } else if total >= limit {
        Some(AdmissionError::GlobalLimit)
    } else {
        None
    }
}

/// The slots without the one of a session.
pub open spec fn slots_without(slots: Seq<TcpSlot>, id: u64) -> Seq<TcpSlot> {
    slots.filter(|s: TcpSlot| s.session_id != id)
}

/// One less, not below zero.
pub open spec fn one_less(n: usize) -> usize {
    if n == 0 {
        0
    } else {
        (n - 1) as usize
    }
}

/// What becomes of a wish for a connection.
#[derive(Clone, Copy, Debug, PartialEq, Eq, Structural)]
pub enum TcpAcquire {
    Leased(TcpQuotaLease),
    Refused,
    /// The session with this number is asked to end; once it has, one more try is made.
    Evict(u64),
}

/// How a wish ends, with the limits as they are then.
pub ghost enum Wish {
    Granted((usize, usize)),
    Refused((usize, usize)),
    Full((usize, usize)),
}

/// How a wish for a connection ends: limits that are in the way are raised as far as
/// they can be.
pub open spec fn tcp_wish(
    quotas: Seq<DeviceQuota>,
    total: usize,
    device: int,
    limits: (usize, usize),
    memory: Option<u64>,
) -> Wish
    decreases
            3 - (if stage_of(limits) is Some {
                stage_of(limits)->0
            } else {
                3
            }),
    when stage_of(limits) is Some
{
    let next = raised_limits(limits, memory);
    match tcp_verdict(quotas, total, device, limits.0) {
        None => Wish::Granted(limits),
        Some(AdmissionError::GlobalLimit) => if next == limits || stage_of(next) is None || stage_of(
            next,
        )->0 <= stage_of(limits)->0 {
            Wish::Full(limits)
        } else {
            tcp_wish(quotas, total, device, next, memory)
        },
        Some(_) => Wish::Refused(limits),
    }
}

/// The lowest number among the sessions that were not asked to end yet.
pub open spec fn oldest_session(slots: Seq<TcpSlot>) -> Option<u64>
    decreases slots.len(),
{
    if slots.len() == 0 {
        None
    } else {
        let s = slots.last();
        let rest = oldest_session(slots.drop_last());
        if s.evicting {
            rest
        } else {
            match rest {
                Some(id) => if s.session_id < id {
                    Some(s.session_id)
                } else {
                    Some(id)
                },
                None => Some(s.session_id),
            }
        }
    }
}

/// The slots after a session was asked to end.
pub open spec fn slots_evicting(slots: Seq<TcpSlot>, id: u64) -> Seq<TcpSlot> {
    Seq::new(
        slots.len(),
        |i: int|
            if slots[i].session_id == id {
                TcpSlot { session_id: id, evicting: true }
            } else {
                slots[i]
            },
    )
}

impl DeviceQuotaRegistry {
    /// The position of a device among the quotas.
    pub open spec fn index_of(&self, ip: Ipv4) -> Option<nat> {
        if map_entries(self.by_ip).contains_key(ip_key(ip)) {
            Some(map_entries(self.by_ip)[ip_key(ip)] as nat)
        } else {
            None
        }
    }

    /// Every device has a place among the quotas; the limits are those of a stage.
    pub open spec fn wf(&self) -> bool {
        &&& self.capacity.wf()
        &&& self.quotas@.len() <= u64::MAX
        &&& forall|k: (u64, u64)| #[trigger]
            map_entries(self.by_ip).contains_key(k) ==> map_entries(self.by_ip)[k]
                < self.quotas@.len()
        &&& forall|i: int|
            0 <= i < self.quotas@.len() ==> (#[trigger] self.quotas@[i]).tcp_active
                <= DEVICE_TCP_SESSION_LIMIT && self.quotas@[i].udp_active <= DEVICE_UDP_FLOW_LIMIT
                && self.quotas@[i].normal_buffers <= DEVICE_NORMAL_BUFFER_LIMIT
                && self.quotas@[i].jumbo_buffers <= DEVICE_JUMBO_BUFFER_LIMIT
        &&& self.admission.normal_buffers <= GLOBAL_NORMAL_BUFFER_LIMIT
        &&& self.admission.jumbo_buffers <= GLOBAL_JUMBO_BUFFER_LIMIT
    }

    /// Whether the devices are those of `other`.
    pub open spec fn same_devices(&self, other: &DeviceQuotaRegistry) -> bool {
        self.by_ip == other.by_ip
    }

    /// Whether the open connections and their numbering are the same.
    pub open spec fn same_sessions(&self, other: &DeviceQuotaRegistry) -> bool {
        &&& self.evictions == other.evictions
        &&& self.next_tcp_eviction == other.next_tcp_eviction
    }

    /// No devices.
    pub fn new() -> (r: Self)
        ensures
            r.wf(),
            forall|ip: Ipv4| #[trigger] r.index_of(ip) is None,
            r.quotas@.len() == 0,
            r.admission == no_admissions(),
            r.capacity.tcp_limit == GLOBAL_TCP_SESSION_LIMIT,
            r.capacity.udp_limit == GLOBAL_UDP_FLOW_LIMIT,
            r.evictions@.len() == 0,
            r.next_tcp_eviction == 1,
    {
        DeviceQuotaRegistry {
            by_ip: map_new(),
            quotas: Vec::new(),
            admission: AdmissionState {
                tcp_active: 0,
                udp_active: 0,
                normal_buffers: 0,
                jumbo_buffers: 0,
            },
            capacity: ProxyCapacity::new(),
            evictions: Vec::new(),
            next_tcp_eviction: 1,
        }
    }

    /// Forgets what a run of the proxy left behind. Devices stay known.
    pub fn release_runtime_state(&mut self)
        requires
            old(self).wf(),
        ensures
            final(self).wf(),
            final(self).same_devices(old(self)),
            final(self).quotas@ == old(self).quotas@,
            final(self).admission == no_admissions(),
            final(self).capacity.tcp_limit == GLOBAL_TCP_SESSION_LIMIT,
            final(self).capacity.udp_limit == GLOBAL_UDP_FLOW_LIMIT,
            final(self).evictions@.len() == 0,
            final(self).next_tcp_eviction == old(self).next_tcp_eviction,
    {
        self.capacity.reset();
        self.admission = AdmissionState {
            tcp_active: 0,
            udp_active: 0,
            normal_buffers: 0,
            jumbo_buffers: 0,
        };
        self.evictions = Vec::new();
    }

    /// The current limits: sessions and flows.
    pub fn limits(&self) -> (r: (usize, usize))
        ensures
            r == (self.capacity.tcp_limit, self.capacity.udp_limit),
    {
        self.capacity.limits()
    }

    /// Makes a device known; one that is known stays as it is.
    pub fn activate_tunnel_ip(&mut self, tun_ip: Ipv4)
        requires
            old(self).wf(),
            old(self).quotas@.len() < u64::MAX,
        ensures
            final(self).wf(),
            final(self).admission == old(self).admission,
            final(self).capacity == old(self).capacity,
            final(self).evictions == old(self).evictions,
            final(self).next_tcp_eviction == old(self).next_tcp_eviction,
            old(self).index_of(tun_ip) is Some ==> final(self).same_devices(old(self)) && final(self).quotas@ == old(self).quotas@,
            old(self).index_of(tun_ip) is None ==> {
                &&& final(self).quotas@ == old(self).quotas@.push(fresh_quota())
                &&& forall|ip: Ipv4| #[trigger]
                    final(self).index_of(ip) == if ip == tun_ip {
                        Some(old(self).quotas@.len())
                    } else {
                        old(self).index_of(ip)
                    }
            },
    {
        let key: (u64, u64) = (tun_ip.number() as u64, 0);
        if map_get(&self.by_ip, key).is_some() {
            return ;
        }
        let at: u64 = self.quotas.len() as u64;
        self.quotas.push(
            DeviceQuota {
                tcp_active: 0,
                udp_active: 0,
                normal_buffers: 0,
                jumbo_buffers: 0,
                cancelled: false,
            },
        );
        map_insert(&mut self.by_ip, key, at);
        proof {
            assert forall|ip: Ipv4| #[trigger] self.index_of(ip) == if ip == tun_ip {
                Some(old(self).quotas@.len())
            } else {
                old(self).index_of(ip)
            } by {
                if ip != tun_ip && ip_key(ip) == key {
                    lemma_ipv4_number_injective(ip, tun_ip);
                }
            }
        }
    }

    /// The place of a device that is known and not cancelled.
    pub fn quota_for_ip(&self, ip: Ipv4) -> (r: Option<usize>)
        requires
            self.wf(),
        ensures
            match r {
                Some(i) => self.index_of(ip) == Some(i as nat) && i < self.quotas@.len()
                    && !self.quotas@[i as int].cancelled,
                None => self.index_of(ip) is None || self.quotas@[self.index_of(
                    ip,
                )->0 as int].cancelled,
            },
    {
        let key: (u64, u64) = (ip.number() as u64, 0);
        match map_get(&self.by_ip, key) {
            None => None,
            Some(at) => {
                let i: usize = at as usize;
                proof {
                    assert(map_entries(self.by_ip).contains_key(key));
                    let q = self.quotas;
                    assert(q@.len() == q.len());
                }
                if self.quotas[i].cancelled {
                    None
                } else {
                    Some(i)
                }
            },
        }
    }

    fn active_tcp_devices(&self, current: usize) -> (r: usize)
        ensures
            r == tcp_sharers(self.quotas@, current as int),
    {
        let mut r: usize = 0;
        let mut i: usize = 0;
        proof {
            assert(self.quotas@.take(0) =~= Seq::<DeviceQuota>::empty());
        }
        while i < self.quotas.len()
            invariant
                i <= self.quotas@.len(),
                r <= i,
                r == tcp_sharers(self.quotas@.take(i as int), current as int),
            decreases self.quotas@.len() - i,
        {
            proof {
                assert(self.quotas@.take(i as int + 1).drop_last() =~= self.quotas@.take(i as int));
                assert(self.quotas@.take(i as int + 1).last() == self.quotas@[i as int]);
            }
            if i == current || self.quotas[i].tcp_active != 0 {
                r = r + 1;
            }
            i = i + 1;
        }
        proof {
            assert(self.quotas@.take(i as int) =~= self.quotas@);
        }
        r
    }

    fn active_udp_devices(&self, current: usize) -> (r: usize)
        ensures
            r == udp_sharers(self.quotas@, current as int),
    {
        let mut r: usize = 0;
        let mut i: usize = 0;
        proof {
            assert(self.quotas@.take(0) =~= Seq::<DeviceQuota>::empty());
        }
        while i < self.quotas.len()
            invariant
                i <= self.quotas@.len(),
                r <= i,
                r == udp_sharers(self.quotas@.take(i as int), current as int),
            decreases self.quotas@.len() - i,
        {
            proof {
                assert(self.quotas@.take(i as int + 1).drop_last() =~= self.quotas@.take(i as int));
                assert(self.quotas@.take(i as int + 1).last() == self.quotas@[i as int]);
            }
            if i == current || self.quotas[i].udp_active != 0 {
                r = r + 1;
            }
            i = i + 1;
        }
        proof {
            assert(self.quotas@.take(i as int) =~= self.quotas@);
        }
        r
    }

    /// Admits one more connection of a device, where its share and the limit allow it.
    pub fn try_acquire_tcp(&mut self, ip: Ipv4) -> (r: Result<TcpQuotaLease, AdmissionError>)
        requires
            old(self).wf(),
        ensures
            final(self).wf(),
            final(self).same_devices(old(self)),
            final(self).capacity == old(self).capacity,
            ({
                let at = old(self).index_of(ip);
                if at is None || old(self).quotas@[at->0 as int].cancelled {
                    r == Err::<TcpQuotaLease, AdmissionError>(AdmissionError::Inactive) && final(self).unchanged(old(self))
                } else {
                    let device = at->0 as int;
                    match tcp_verdict(
                        old(self).quotas@,
                        old(self).admission.tcp_active,
                        device,
                        old(self).capacity.tcp_limit,
                    ) {
                        Some(error) => r == Err::<TcpQuotaLease, AdmissionError>(error) && final(self).unchanged(old(self)),
                        None => r is Ok && final(self).tcp_admitted(old(self), device, r->Ok_0),
                    }
                }
            }),
    {
        let device: usize = match self.quota_for_ip(ip) {
            Some(i) => i,
            None => {
                return Err(AdmissionError::Inactive);
            },
        };
        let limit: usize = self.capacity.tcp_limit;
        let share: usize = adaptive_device_limit(
            limit,
            DEVICE_TCP_SESSION_LIMIT,
            DEVICE_TCP_FLOOR,
            self.active_tcp_devices(device),
        );
        if self.quotas[device].tcp_active >= share {
            return Err(AdmissionError::DeviceLimit);
        }
        if self.admission.tcp_active >= limit {
            return Err(AdmissionError::GlobalLimit);
        }
        let mut quota = self.quotas[device];
        quota.tcp_active = quota.tcp_active + 1;
        self.quotas.set(device, quota);
        self.admission.tcp_active = self.admission.tcp_active + 1;
        let session_id: u64 = self.next_tcp_eviction;
        self.next_tcp_eviction = session_id.wrapping_add(1);
        self.remove_slot(session_id);
        self.evictions.push(TcpSlot { session_id, evicting: false });
        Ok(TcpQuotaLease { device, session_id })
    }

    /// Whether nothing was admitted or released.
    pub open spec fn unchanged(&self, other: &DeviceQuotaRegistry) -> bool {
        &&& self.quotas@ == other.quotas@
        &&& self.admission == other.admission
        &&& self.evictions@ == other.evictions@
        &&& self.next_tcp_eviction == other.next_tcp_eviction
    }

    /// Whether one more connection of a device was admitted.
    pub open spec fn tcp_admitted(
        &self,
        other: &DeviceQuotaRegistry,
        device: int,
        lease: TcpQuotaLease,
    ) -> bool {
        let q = other.quotas@[device];
        &&& lease.device == device
        &&& lease.session_id == other.next_tcp_eviction
        &&& self.quotas@ == other.quotas@.update(
            device,
            DeviceQuota { tcp_active: (q.tcp_active + 1) as usize, ..q },
        )
        &&& self.admission == AdmissionState {
            tcp_active: (other.admission.tcp_active + 1) as usize,
            ..other.admission
        }
        &&& self.evictions@ == slots_without(other.evictions@, lease.session_id).push(
            TcpSlot { session_id: lease.session_id, evicting: false },
        )
        &&& self.next_tcp_eviction == (if other.next_tcp_eviction == u64::MAX {
            0
        } else {
            (other.next_tcp_eviction + 1) as u64
        })
    }

    fn remove_slot(&mut self, session_id: u64)
        requires
            old(self).wf(),
        ensures
            final(self).wf(),
            final(self).same_devices(old(self)),
            final(self).quotas == old(self).quotas,
            final(self).admission == old(self).admission,
            final(self).capacity == old(self).capacity,
            final(self).next_tcp_eviction == old(self).next_tcp_eviction,
            final(self).evictions@ == slots_without(old(self).evictions@, session_id),
    {
        let ghost all = self.evictions@;
        let ghost keep = |s: TcpSlot| s.session_id != session_id;
        let mut kept: Vec<TcpSlot> = Vec::new();
        let mut i: usize = 0;
        proof {
            reveal(Seq::filter);
            assert(all.take(0) =~= Seq::<TcpSlot>::empty());
            assert(kept@ =~= all.take(0).filter(keep));
        }
        while i < self.evictions.len()
            invariant
                i <= all.len(),
                *self == *old(self),
                self.evictions@ == all,
                keep == |s: TcpSlot| s.session_id != session_id,
                kept@ == all.take(i as int).filter(keep),
            decreases all.len() - i,
        {
            let slot = self.evictions[i];
            proof {
                reveal(Seq::filter);
                assert(all.take(i as int + 1).drop_last() =~= all.take(i as int));
                assert(all.take(i as int + 1).last() == slot);
            }
            if slot.session_id != session_id {
                kept.push(slot);
            }
            i = i + 1;
        }
        proof {
            assert(all.take(i as int) =~= all);
        }
        self.evictions = kept;
    }

    /// Ends a connection: its device and all devices together have one less.
    pub fn release_tcp(&mut self, lease: TcpQuotaLease)
        requires
            old(self).wf(),
            lease.device < old(self).quotas@.len(),
        ensures
            final(self).wf(),
            final(self).same_devices(old(self)),
            final(self).capacity == old(self).capacity,
            final(self).next_tcp_eviction == old(self).next_tcp_eviction,
            final(self).evictions@ == slots_without(old(self).evictions@, lease.session_id),
            ({
                let q = old(self).quotas@[lease.device as int];
                final(self).quotas@ == old(self).quotas@.update(
                    lease.device as int,
                    DeviceQuota { tcp_active: one_less(q.tcp_active), ..q },
                )
            }),
            final(self).admission == (AdmissionState {
                tcp_active: one_less(old(self).admission.tcp_active),
                ..old(self).admission
            }),
    {
        self.remove_slot(lease.session_id);
        let mut quota = self.quotas[lease.device];
        quota.tcp_active = quota.tcp_active.saturating_sub(1);
        self.quotas.set(lease.device, quota);
        self.admission.tcp_active = self.admission.tcp_active.saturating_sub(1);
    }

    /// Admits one more flow of a device, where its share and the limit allow it.
    pub fn try_acquire_udp(&mut self, ip: Ipv4) -> (r: Result<UdpQuotaLease, AdmissionError>)
        requires
            old(self).wf(),
        ensures
            final(self).wf(),
            final(self).same_devices(old(self)),
            final(self).capacity == old(self).capacity,
            final(self).evictions == old(self).evictions,
            final(self).next_tcp_eviction == old(self).next_tcp_eviction,
            ({
                let at = old(self).index_of(ip);
                if at is None || old(self).quotas@[at->0 as int].cancelled {
                    r == Err::<UdpQuotaLease, AdmissionError>(AdmissionError::Inactive) && final(self).unchanged(old(self))
                } else {
                    let device = at->0 as int;
                    match udp_verdict(
                        old(self).quotas@,
                        old(self).admission.udp_active,
                        device,
                        old(self).capacity.udp_limit,
                    ) {
                        Some(error) => r == Err::<UdpQuotaLease, AdmissionError>(error) && final(self).unchanged(old(self)),
                        None => r is Ok && r->Ok_0.device == device && final(self).udp_admitted(old(self), device),
                    }
                }
            }),
    {
        let device: usize = match self.quota_for_ip(ip) {
            Some(i) => i,
            None => {
                return Err(AdmissionError::Inactive);
            },
        };
        let limit: usize = self.capacity.udp_limit;
        let share: usize = adaptive_device_limit(
            limit,
            DEVICE_UDP_FLOW_LIMIT,
            DEVICE_UDP_FLOOR,
            self.active_udp_devices(device),
        );
        if self.quotas[device].udp_active >= share {
            return Err(AdmissionError::DeviceLimit);
        }
        if self.admission.udp_active >= limit {
            return Err(AdmissionError::GlobalLimit);
        }
        let mut quota = self.quotas[device];
        quota.udp_active = quota.udp_active + 1;
        self.quotas.set(device, quota);
        self.admission.udp_active = self.admission.udp_active + 1;
        Ok(UdpQuotaLease { device })
    }

    /// Whether one more flow of a device was admitted.
    pub open spec fn udp_admitted(&self, other: &DeviceQuotaRegistry, device: int) -> bool {
        let q = other.quotas@[device];
        &&& self.quotas@ == other.quotas@.update(
            device,
            DeviceQuota { udp_active: (q.udp_active + 1) as usize, ..q },
        )
        &&& self.admission == AdmissionState {
            udp_active: (other.admission.udp_active + 1) as usize,
            ..other.admission
        }
    }

    /// Ends a flow: its device and all devices together have one less.
    pub fn release_udp(&mut self, lease: UdpQuotaLease)
        requires
            old(self).wf(),
            lease.device < old(self).quotas@.len(),
        ensures
            final(self).wf(),
            final(self).same_devices(old(self)),
            final(self).capacity == old(self).capacity,
            final(self).evictions == old(self).evictions,
            final(self).next_tcp_eviction == old(self).next_tcp_eviction,
            ({
                let q = old(self).quotas@[lease.device as int];
                final(self).quotas@ == old(self).quotas@.update(
                    lease.device as int,
                    DeviceQuota { udp_active: one_less(q.udp_active), ..q },
                )
            }),
            final(self).admission == (AdmissionState {
                udp_active: one_less(old(self).admission.udp_active),
                ..old(self).admission
            }),
    {
        let mut quota = self.quotas[lease.device];
        quota.udp_active = quota.udp_active.saturating_sub(1);
        self.quotas.set(lease.device, quota);
        self.admission.udp_active = self.admission.udp_active.saturating_sub(1);
    }

    /// Asks the session that was admitted first to end, of those that were not asked yet.
    pub fn cancel_oldest_tcp(&mut self) -> (r: Option<u64>)
        requires
            old(self).wf(),
        ensures
            final(self).wf(),
            final(self).same_devices(old(self)),
            final(self).quotas == old(self).quotas,
            final(self).admission == old(self).admission,
            final(self).capacity == old(self).capacity,
            final(self).next_tcp_eviction == old(self).next_tcp_eviction,
            r == oldest_session(old(self).evictions@),
            final(self).evictions@ == (match r {
                Some(id) => slots_evicting(old(self).evictions@, id),
                None => old(self).evictions@,
            }),
    {
        let ghost all = self.evictions@;
        let mut oldest: Option<u64> = None;
        let mut i: usize = 0;
        proof {
            assert(all.take(0) =~= Seq::<TcpSlot>::empty());
        }
        while i < self.evictions.len()
            invariant
                i <= all.len(),
                *self == *old(self),
                all == self.evictions@,
                oldest == oldest_session(all.take(i as int)),
            decreases all.len() - i,
        {
            let slot = self.evictions[i];
            proof {
                assert(all.take(i as int + 1).drop_last() =~= all.take(i as int));
                assert(all.take(i as int + 1).last() == slot);
            }
            if !slot.evicting {
                oldest = match oldest {
                    Some(id) => if slot.session_id < id {
                        Some(slot.session_id)
                    } else {
                        Some(id)
                    },
                    None => Some(slot.session_id),
                };
            }
            i = i + 1;
        }
        proof {
            assert(all.take(i as int) =~= all);
        }
        match oldest {
            None => None,
            Some(id) => {
                let mut k: usize = 0;
                while k < self.evictions.len()
                    invariant
                        k <= all.len(),
                        self.wf(),
                        self.same_devices(old(self)),
                        self.quotas == old(self).quotas,
                        self.admission == old(self).admission,
                        self.capacity == old(self).capacity,
                        self.next_tcp_eviction == old(self).next_tcp_eviction,
                        self.evictions@.len() == all.len(),
                        forall|j: int|
                            0 <= j < k ==> #[trigger] self.evictions@[j] == slots_evicting(
                                all,
                                id,
                            )[j],
                        forall|j: int|
                            k <= j < all.len() ==> #[trigger] self.evictions@[j] == all[j],
                    decreases all.len() - k,
                {
                    if self.evictions[k].session_id == id {
                        self.evictions.set(k, TcpSlot { session_id: id, evicting: true });
                    }
                    k = k + 1;
                }
                proof {
                    assert(self.evictions@ =~= slots_evicting(all, id));
                }
                Some(id)
            },
        }
    }

    /// Tries once more to admit a connection, after the session that was asked to end
    /// had its time to do so: this time the limits stay, and nobody else is asked.
    pub fn acquire_after_eviction(&mut self, ip: Ipv4) -> (r: Option<TcpQuotaLease>)
        requires
            old(self).wf(),
        ensures
            final(self).wf(),
            final(self).same_devices(old(self)),
            final(self).capacity == old(self).capacity,
            ({
                let at = old(self).index_of(ip);
                let device = at->0 as int;
                if at is Some && !old(self).quotas@[device].cancelled && tcp_verdict(
                    old(self).quotas@,
                    old(self).admission.tcp_active,
                    device,
                    old(self).capacity.tcp_limit,
                ) is None {
                    r is Some && final(self).tcp_admitted(old(self), device, r->0)
                } else {
                    r is None && final(self).unchanged(old(self))
                }
            }),
    {
        match self.try_acquire_tcp(ip) {
            Ok(lease) => Some(lease),
            Err(_) => None,
        }
    }

    /// Tries to admit a connection. Where the limit is in the way it is raised as far as
    /// memory allows, and where it cannot be raised the oldest session is asked to end.
    pub fn acquire_tcp_quota(&mut self, ip: Ipv4, available_memory: Option<u64>) -> (r: TcpAcquire)
        requires
            old(self).wf(),
        ensures
            final(self).wf(),
            final(self).same_devices(old(self)),
            ({
                let at = old(self).index_of(ip);
                let limits = (old(self).capacity.tcp_limit, old(self).capacity.udp_limit);
                if at is None || old(self).quotas@[at->0 as int].cancelled {
                    r is Refused && final(self).unchanged(old(self)) && final(self).capacity == old(self).capacity
                } else {
                    let device = at->0 as int;
                    let total = old(self).admission.tcp_active;
                    match tcp_wish(old(self).quotas@, total, device, limits, available_memory) {
                        Wish::Granted(l) => {
                            &&& r is Leased
                            &&& (final(self).capacity.tcp_limit, final(self).capacity.udp_limit)
                                == l
                            &&& final(self).tcp_admitted(old(self), device, r->Leased_0)
                        },
                        Wish::Refused(l) => {
                            &&& r is Refused
                            &&& (final(self).capacity.tcp_limit, final(self).capacity.udp_limit)
                                == l
                            &&& final(self).unchanged(old(self))
                        },
                        Wish::Full(l) => {
                            &&& (final(self).capacity.tcp_limit, final(self).capacity.udp_limit)
                                == l
                            &&& final(self).quotas@ == old(self).quotas@
                            &&& final(self).admission == old(self).admission
                            &&& final(self).next_tcp_eviction == old(self).next_tcp_eviction
                            &&& match oldest_session(old(self).evictions@) {
                                Some(id) => r == TcpAcquire::Evict(id) && final(self).evictions@
                                    == slots_evicting(old(self).evictions@, id),
                                None => r is Refused && final(self).evictions@ == old(self).evictions@,
                            }
                        },
                    }
                }
            }),
    {
        loop
            invariant
                self.wf(),
                old(self).wf(),
                self.same_devices(old(self)),
                self.unchanged(old(self)),
                ({
                    let at = old(self).index_of(ip);
                    if at is None || old(self).quotas@[at->0 as int].cancelled {
                        self.capacity == old(self).capacity
                    } else {
                        tcp_wish(
                            old(self).quotas@,
                            old(self).admission.tcp_active,
                            at->0 as int,
                            (old(self).capacity.tcp_limit, old(self).capacity.udp_limit),
                            available_memory,
                        ) == tcp_wish(
                            old(self).quotas@,
                            old(self).admission.tcp_active,
                            at->0 as int,
                            (self.capacity.tcp_limit, self.capacity.udp_limit),
                            available_memory,
                        )
                    }
                }),
            decreases
                    3 - stage_of((self.capacity.tcp_limit, self.capacity.udp_limit))->0,
        {
            proof {
                assert(self.index_of(ip) == old(self).index_of(ip));
                law_limits_only_rise(
                    (self.capacity.tcp_limit, self.capacity.udp_limit),
                    available_memory,
                );
            }
            match self.try_acquire_tcp(ip) {
                Ok(lease) => {
                    return TcpAcquire::Leased(lease);
                },
                Err(error) => match error {
                    AdmissionError::Inactive => {
                        return TcpAcquire::Refused;
                    },
                    AdmissionError::DeviceLimit => {
                        return TcpAcquire::Refused;
                    },
                    AdmissionError::GlobalLimit => {},
                },
            }
            if !self.capacity.try_expand(available_memory) {
                return match self.cancel_oldest_tcp() {
                    Some(id) => TcpAcquire::Evict(id),
                    None => TcpAcquire::Refused,
                };
            }
        }
    }

    /// Whether a device may have one more response buffer.
    pub open spec fn buffer_allowed(&self, device: int, jumbo: bool) -> bool {
        let q = self.quotas@[device];
        let a = self.admission;
        if jumbo {
            q.jumbo_buffers < DEVICE_JUMBO_BUFFER_LIMIT && a.jumbo_buffers
                < GLOBAL_JUMBO_BUFFER_LIMIT
        } else {
            q.normal_buffers < DEVICE_NORMAL_BUFFER_LIMIT && a.normal_buffers
                < GLOBAL_NORMAL_BUFFER_LIMIT
        }
    }

    /// Whether one more response buffer of a device was admitted, and nothing else.
    pub open spec fn buffer_admitted(
        &self,
        other: &DeviceQuotaRegistry,
        device: int,
        jumbo: bool,
    ) -> bool {
        let q = other.quotas@[device];
        let a = other.admission;
        &&& self.same_devices(other)
        &&& self.capacity == other.capacity
        &&& self.evictions == other.evictions
        &&& self.next_tcp_eviction == other.next_tcp_eviction
        &&& self.quotas@ == other.quotas@.update(
            device,
            if jumbo {
                DeviceQuota { jumbo_buffers: (q.jumbo_buffers + 1) as usize, ..q }
            } else {
                DeviceQuota { normal_buffers: (q.normal_buffers + 1) as usize, ..q }
            },
        )
        &&& self.admission == if jumbo {
            AdmissionState { jumbo_buffers: (a.jumbo_buffers + 1) as usize, ..a }
        } else {
            AdmissionState { normal_buffers: (a.normal_buffers + 1) as usize, ..a }
        }
    }

    /// Whether one response buffer of a device was given back, and nothing else.
    pub open spec fn buffer_released(
        &self,
        other: &DeviceQuotaRegistry,
        device: int,
        jumbo: bool,
    ) -> bool {
        let q = other.quotas@[device];
        let a = other.admission;
        &&& self.same_devices(other)
        &&& self.capacity == other.capacity
        &&& self.evictions == other.evictions
        &&& self.next_tcp_eviction == other.next_tcp_eviction
        &&& self.quotas@ == other.quotas@.update(
            device,
            if jumbo {
                DeviceQuota { jumbo_buffers: one_less(q.jumbo_buffers), ..q }
            } else {
                DeviceQuota { normal_buffers: one_less(q.normal_buffers), ..q }
            },
        )
        &&& self.admission == if jumbo {
            AdmissionState { jumbo_buffers: one_less(a.jumbo_buffers), ..a }
        } else {
            AdmissionState { normal_buffers: one_less(a.normal_buffers), ..a }
        }
    }

    /// Admits one more response buffer of a device, of the normal or the large kind.
    pub fn try_acquire_buffer(&mut self, device: usize, jumbo: bool) -> (r: bool)
        requires
            old(self).wf(),
            device < old(self).quotas@.len(),
        ensures
            final(self).wf(),
            r == old(self).buffer_allowed(device as int, jumbo),
            r ==> final(self).buffer_admitted(old(self), device as int, jumbo),
            !r ==> *final(self) == *old(self),
    {
        let mut quota = self.quotas[device];
        if jumbo {
            if quota.jumbo_buffers >= DEVICE_JUMBO_BUFFER_LIMIT || self.admission.jumbo_buffers
                >= GLOBAL_JUMBO_BUFFER_LIMIT {
                return false;
            }
            quota.jumbo_buffers = quota.jumbo_buffers + 1;
            self.admission.jumbo_buffers = self.admission.jumbo_buffers + 1;
        } else {
            if quota.normal_buffers >= DEVICE_NORMAL_BUFFER_LIMIT || self.admission.normal_buffers
                >= GLOBAL_NORMAL_BUFFER_LIMIT {
                return false;
            }
            quota.normal_buffers = quota.normal_buffers + 1;
            self.admission.normal_buffers = self.admission.normal_buffers + 1;
        }
        self.quotas.set(device, quota);
        true
    }

    /// Gives back a response buffer.
    pub fn release_buffer(&mut self, device: usize, jumbo: bool)
        requires
            old(self).wf(),
            device < old(self).quotas@.len(),
        ensures
            final(self).wf(),
            final(self).buffer_released(old(self), device as int, jumbo),
    {
        let mut quota = self.quotas[device];
        if jumbo {
            quota.jumbo_buffers = quota.jumbo_buffers.saturating_sub(1);
            self.admission.jumbo_buffers = self.admission.jumbo_buffers.saturating_sub(1);
        } else {
            quota.normal_buffers = quota.normal_buffers.saturating_sub(1);
            self.admission.normal_buffers = self.admission.normal_buffers.saturating_sub(1);
        }
        self.quotas.set(device, quota);
    }
}

/// Giving a connection back undoes its admission: counts and slots are as before.
pub proof fn law_release_undoes_admission(
    quotas: Seq<DeviceQuota>,
    slots: Seq<TcpSlot>,
    device: int,
    id: u64,
)
    requires
        0 <= device < quotas.len(),
        quotas[device].tcp_active < usize::MAX,
        forall|i: int| 0 <= i < slots.len() ==> (#[trigger] slots[i]).session_id != id,
    ensures
        ({
            let q = quotas[device];
            let more = quotas.update(
                device,
                DeviceQuota { tcp_active: (q.tcp_active + 1) as usize, ..q },
            );
            let p = more[device];
            more.update(device, DeviceQuota { tcp_active: one_less(p.tcp_active), ..p }) == quotas
        }),
        slots_without(
            slots_without(slots, id).push(TcpSlot { session_id: id, evicting: false }),
            id,
        ) == slots,
{
    let q = quotas[device];
    let more = quotas.update(device, DeviceQuota { tcp_active: (q.tcp_active + 1) as usize, ..q });
    let p = more[device];
    assert(more.update(device, DeviceQuota { tcp_active: one_less(p.tcp_active), ..p }) =~= quotas);
    lemma_without_absent(slots, id);
    reveal(Seq::filter);
    let new = TcpSlot { session_id: id, evicting: false };
    assert(slots.push(new).drop_last() =~= slots);
}

proof fn lemma_without_absent(slots: Seq<TcpSlot>, id: u64)
    requires
        forall|i: int| 0 <= i < slots.len() ==> (#[trigger] slots[i]).session_id != id,
    ensures
        slots_without(slots, id) == slots,
    decreases slots.len(),
{
    reveal(Seq::filter);
    if slots.len() > 0 {
        let d = slots.drop_last();
        assert forall|i: int| 0 <= i < d.len() implies (#[trigger] d[i]).session_id != id by {
            assert(slots[i].session_id != id);
        }
        lemma_without_absent(d, id);
        assert(slots[slots.len() - 1].session_id != id);
        assert(slots_without(slots, id) =~= slots);
    } else {
        assert(slots_without(slots, id) =~= slots);
    }
}

/// The capacity is shared evenly among the devices that are active: no device gets more
/// than its part, unless the part is below the floor, nor less than its part, unless that is
/// above what one device may have.
pub proof fn law_device_share_is_an_even_part(global: nat, device: nat, floor: nat, active: nat)
    requires
        floor <= device,
        active >= 1,
    ensures
        device_share(global, device, floor, active) * active <= global || device_share(
            global,
            device,
            floor,
            active,
        ) == floor,
        (device_share(global, device, floor, active) + 1) * active > global || device_share(
            global,
            device,
            floor,
            active,
        ) == device,
        device_share(global, device, floor, 0) == device_share(global, device, floor, 1),
{
    let part = global / active;
    assert(part * active <= global && (part + 1) * active > global) by (nonlinear_arith)
        requires
            part == global / active,
            active >= 1,
    ;
    let share = device_share(global, device, floor, active);
    if share != device {
        assert(share >= part);
        assert((share + 1) * active >= (part + 1) * active) by (nonlinear_arith)
            requires
                share >= part,
                active >= 1,
        ;
    }
    if share != floor {
        assert(share <= part);
        assert(share * active <= part * active) by (nonlinear_arith)
            requires
                share <= part,
                active >= 1,
        ;
    }
}

/// The limits rise step by step: once without looking at memory, then with half a gibibyte
/// to spare, and to the top with 1200 mebibytes; without that much they stay.
pub proof fn law_limits_rise_with_memory(memory: Option<u64>)
    ensures
        raised_limits((384, 784), memory) == (1512usize, 2048usize),
        memory is None || memory->0 < 536870912 ==> raised_limits((1512, 2048), memory) == (
            1512usize,
            2048usize,
        ),
        memory is Some && 536870912 <= memory->0 < 1258291200 ==> raised_limits(
            (1512, 2048),
            memory,
        ) == (1784usize, 2384usize) && raised_limits((1784, 2384), memory) == (1784usize, 2384usize),
        memory is Some && memory->0 >= 1258291200 ==> raised_limits((1512, 2048), memory) == (
            2384usize,
            4096usize,
        ) && raised_limits((1784, 2384), memory) == (2384usize, 4096usize),
        raised_limits((2384, 4096), memory) == (2384usize, 4096usize),
        GLOBAL_TCP_SESSION_LIMIT == 384 && GLOBAL_UDP_FLOW_LIMIT == 784,
{
}

/// Whoever is active shares, and so does whoever asks; nobody else does.
pub proof fn law_active_devices_share(quotas: Seq<DeviceQuota>, q: DeviceQuota, current: int)
    ensures
        q.tcp_active > 0 || current == quotas.len() ==> tcp_sharers(quotas.push(q), current)
            == tcp_sharers(quotas, current) + 1,
        q.tcp_active == 0 && current != quotas.len() ==> tcp_sharers(quotas.push(q), current)
            == tcp_sharers(quotas, current),
        q.udp_active > 0 || current == quotas.len() ==> udp_sharers(quotas.push(q), current)
            == udp_sharers(quotas, current) + 1,
        q.udp_active == 0 && current != quotas.len() ==> udp_sharers(quotas.push(q), current)
            == udp_sharers(quotas, current),
        tcp_sharers(Seq::empty(), current) == 0,
        udp_sharers(Seq::empty(), current) == 0,
{
    assert(quotas.push(q).drop_last() =~= quotas);
}

/// A device below its floor is never refused on its own account, one at its most always is,
/// and a full proxy refuses whoever is left.
pub proof fn law_verdicts_follow_counts(
    quotas: Seq<DeviceQuota>,
    total: usize,
    device: int,
    limit: usize,
)
    requires
        0 <= device < quotas.len(),
    ensures
        quotas[device].tcp_active < 20 ==> tcp_verdict(quotas, total, device, limit) == (if total
            >= limit {
            Some(AdmissionError::GlobalLimit)
        } else {
            None
        }),
        quotas[device].tcp_active >= 160 ==> tcp_verdict(quotas, total, device, limit) == Some(
            AdmissionError::DeviceLimit,
        ),
        tcp_verdict(quotas, total, device, limit) is None ==> total < limit,
        quotas[device].udp_active < 40 ==> udp_verdict(quotas, total, device, limit) == (if total
            >= limit {
            Some(AdmissionError::GlobalLimit)
        } else {
            None
        }),
        quotas[device].udp_active >= 320 ==> udp_verdict(quotas, total, device, limit) == Some(
            AdmissionError::DeviceLimit,
        ),
        udp_verdict(quotas, total, device, limit) is None ==> total < limit,
        !(tcp_verdict(quotas, total, device, limit) == Some(AdmissionError::Inactive)),
        !(udp_verdict(quotas, total, device, limit) == Some(AdmissionError::Inactive)),
{
}

/// Between floor and most, a device is admitted exactly while it has less than its share.
pub proof fn law_verdicts_follow_shares(
    quotas: Seq<DeviceQuota>,
    total: usize,
    device: int,
    limit: usize,
)
    requires
        0 <= device < quotas.len(),
        total < limit,
    ensures
        tcp_verdict(quotas, total, device, limit) is None <==> quotas[device].tcp_active
            < device_share(limit as nat, 160, 20, tcp_sharers(quotas, device)),
        udp_verdict(quotas, total, device, limit) is None <==> quotas[device].udp_active
            < device_share(limit as nat, 320, 40, udp_sharers(quotas, device)),
{
}

/// A wish for a session is granted at limits that admit it, and called full only where the
/// limits cannot rise any more; the limits never fall on the way.
pub proof fn law_session_wishes_follow_limits(
    quotas: Seq<DeviceQuota>,
    total: usize,
    device: int,
    limits: (usize, usize),
    memory: Option<u64>,
)
    requires
        stage_of(limits) is Some,
    ensures
        match tcp_wish(quotas, total, device, limits, memory) {
            Wish::Granted(l) => l.0 >= limits.0 && tcp_verdict(quotas, total, device, l.0) is None,
            Wish::Refused(l) => l.0 >= limits.0 && tcp_verdict(quotas, total, device, l.0) == Some(
                AdmissionError::DeviceLimit,
            ),
            Wish::Full(l) => l.0 >= limits.0 && total >= l.0 && raised_limits(l, memory) == l
                && tcp_verdict(quotas, total, device, l.0) == Some(AdmissionError::GlobalLimit),
        },
        tcp_verdict(quotas, total, device, limits.0) is None ==> tcp_wish(
            quotas,
            total,
            device,
            limits,
            memory,
        ) == Wish::Granted(limits),
    decreases 3 - stage_of(limits)->0,
{
    let next = raised_limits(limits, memory);
    law_limits_only_rise(limits, memory);
    if tcp_verdict(quotas, total, device, limits.0) == Some(AdmissionError::GlobalLimit) && next
        != limits {
        law_session_wishes_follow_limits(quotas, total, device, next, memory);
    }
}

/// The session that has to go is the oldest of those that are not on their way out; where
/// all are, there is none.
pub proof fn law_oldest_session_goes(slots: Seq<TcpSlot>, i: int)
    ensures
        oldest_session(slots) matches Some(id) ==> exists|k: int|
            0 <= k < slots.len() && !(#[trigger] slots[k]).evicting && slots[k].session_id == id,
        0 <= i < slots.len() && !slots[i].evicting ==> (oldest_session(slots) matches Some(id)
            && id <= slots[i].session_id),
    decreases slots.len(),
{
    if slots.len() > 0 {
        let before = slots.drop_last();
        law_oldest_session_goes(before, i);
        if let Some(id) = oldest_session(before) {
            let k = choose|k: int|
                0 <= k < before.len() && !(#[trigger] before[k]).evicting && before[k].session_id
                    == id;
            assert(slots[k] == before[k]);
        }
        assert(slots[slots.len() - 1] == slots.last());
        if 0 <= i < before.len() {
            assert(before[i] == slots[i]);
        }
    }
}

/// Sending a session on its way marks that session alone, and ending one removes it alone.
pub proof fn law_eviction_marks_one_session(slots: Seq<TcpSlot>, id: u64, i: int, other: TcpSlot)
    ensures
        slots_evicting(slots, id).len() == slots.len(),
        0 <= i < slots.len() ==> slots_evicting(slots, id)[i].session_id == slots[i].session_id,
        0 <= i < slots.len() && slots[i].session_id == id ==> slots_evicting(slots, id)[i].evicting,
        0 <= i < slots.len() && slots[i].session_id != id ==> slots_evicting(slots, id)[i]
            == slots[i],
        slots_without(slots, id).contains(other) ==> other.session_id != id && slots.contains(
            other,
        ),
        slots.contains(other) && other.session_id != id ==> slots_without(slots, id).contains(other),
{
    broadcast use vstd::seq_lib::group_filter_ensures;

    let keep = |s: TcpSlot| s.session_id != id;
    let left = slots.filter(keep);
    assert(slots_without(slots, id) == left);
    if left.contains(other) {
        slots.lemma_filter_contains_rev(keep, other);
    }
    if slots.contains(other) && other.session_id != id {
        let k = choose|k: int| 0 <= k < slots.len() && slots[k] == other;
        assert(keep(slots[k]));
    }
}

/// Admitting a session counts it once: at its device, in all, and in the list of sessions,
/// where it is new and stays. Nothing else of any device changes.
pub proof fn law_admitted_sessions_are_counted(
    before: &DeviceQuotaRegistry,
    after: &DeviceQuotaRegistry,
    device: int,
    lease: TcpQuotaLease,
    other: int,
)
    requires
        0 <= device < before.quotas@.len(),
        before.quotas@[device].tcp_active < usize::MAX,
        before.admission.tcp_active < usize::MAX,
        after.tcp_admitted(before, device, lease),
    ensures
        lease.device == device,
        after.quotas@.len() == before.quotas@.len(),
        after.quotas@[device].tcp_active == before.quotas@[device].tcp_active + 1,
        after.quotas@[device].udp_active == before.quotas@[device].udp_active,
        after.quotas@[device].normal_buffers == before.quotas@[device].normal_buffers,
        after.quotas@[device].jumbo_buffers == before.quotas@[device].jumbo_buffers,
        after.quotas@[device].cancelled == before.quotas@[device].cancelled,
        0 <= other < before.quotas@.len() && other != device ==> after.quotas@[other]
            == before.quotas@[other],
        after.admission.tcp_active == before.admission.tcp_active + 1,
        after.admission.udp_active == before.admission.udp_active,
        after.evictions@.last() == (TcpSlot { session_id: lease.session_id, evicting: false }),
        before.next_tcp_eviction < u64::MAX ==> after.next_tcp_eviction == lease.session_id + 1,
{
}

/// Admitting a flow counts it once, at its device and in all.
pub proof fn law_admitted_flows_are_counted(
    before: &DeviceQuotaRegistry,
    after: &DeviceQuotaRegistry,
    device: int,
    other: int,
)
    requires
        0 <= device < before.quotas@.len(),
        before.quotas@[device].udp_active < usize::MAX,
        before.admission.udp_active < usize::MAX,
        after.udp_admitted(before, device),
    ensures
        after.quotas@[device].udp_active == before.quotas@[device].udp_active + 1,
        after.quotas@[device].tcp_active == before.quotas@[device].tcp_active,
        after.quotas@[device].normal_buffers == before.quotas@[device].normal_buffers,
        after.quotas@[device].jumbo_buffers == before.quotas@[device].jumbo_buffers,
        0 <= other < before.quotas@.len() && other != device ==> after.quotas@[other]
            == before.quotas@[other],
        after.admission.udp_active == before.admission.udp_active + 1,
        after.admission.tcp_active == before.admission.tcp_active,
{
}

/// A device may hold four buffers and one large one, all devices together 32 and 16. What
/// is taken is counted, and giving it back undoes that.
pub proof fn law_buffers_are_counted(
    before: &DeviceQuotaRegistry,
    between: &DeviceQuotaRegistry,
    after: &DeviceQuotaRegistry,
    device: int,
    jumbo: bool,
)
    requires
        before.wf(),
        0 <= device < before.quotas@.len(),
        before.buffer_allowed(device, jumbo),
        between.buffer_admitted(before, device, jumbo),
        after.buffer_released(between, device, jumbo),
    ensures
        jumbo ==> before.quotas@[device].jumbo_buffers == 0 && before.admission.jumbo_buffers < 16,
        !jumbo ==> before.quotas@[device].normal_buffers < 4 && before.admission.normal_buffers
            < 32,
        jumbo ==> between.quotas@[device].jumbo_buffers == 1 && between.admission.jumbo_buffers
            == before.admission.jumbo_buffers + 1 && between.quotas@[device].normal_buffers
            == before.quotas@[device].normal_buffers,
        !jumbo ==> between.quotas@[device].normal_buffers == before.quotas@[device].normal_buffers
            + 1 && between.admission.normal_buffers == before.admission.normal_buffers + 1
            && between.quotas@[device].jumbo_buffers == before.quotas@[device].jumbo_buffers,
        between.quotas@[device].tcp_active == before.quotas@[device].tcp_active,
        between.quotas@[device].udp_active == before.quotas@[device].udp_active,
        after.quotas@ == before.quotas@,
        after.admission == before.admission,
{
    assert(after.quotas@ =~= before.quotas@);
}

/// A buffer is refused only to a device at its limit or where all devices together are at
/// theirs.
pub proof fn law_buffers_are_refused_at_limits(r: &DeviceQuotaRegistry, device: int)
    requires
        0 <= device < r.quotas@.len(),
    ensures
        !r.buffer_allowed(device, false) <==> r.quotas@[device].normal_buffers >= 4
            || r.admission.normal_buffers >= 32,
        !r.buffer_allowed(device, true) <==> r.quotas@[device].jumbo_buffers >= 1
            || r.admission.jumbo_buffers >= 16,
{
}

/// Different addresses have different keys, and a device starts with nothing.
pub proof fn law_addresses_have_keys(a: Ipv4, b: Ipv4, n: usize)
    ensures
        ip_key(a) == ip_key(b) ==> a == b,
        fresh_quota().tcp_active == 0 && fresh_quota().udp_active == 0
            && fresh_quota().normal_buffers == 0 && fresh_quota().jumbo_buffers == 0
            && !fresh_quota().cancelled,
        no_admissions().tcp_active == 0 && no_admissions().udp_active == 0
            && no_admissions().normal_buffers == 0 && no_admissions().jumbo_buffers == 0,
        n > 0 ==> one_less(n) == n - 1,
        one_less(0) == 0,
{
    if ip_key(a) == ip_key(b) {
        law_number_of_an_address(a);
        law_number_of_an_address(b);
        assert(a.number_spec() == b.number_spec());
    }
}

} // verus!
