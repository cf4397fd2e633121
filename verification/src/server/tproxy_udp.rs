//! The UDP side of the transparent proxy: which datagram opens, uses or ends a flow.
use vstd::prelude::*;
use crate::addr::Ipv4;
use crate::server::tproxy::{PROXY_NORMAL_BUFFER_BYTES, next_count};
use crate::server::tproxy_buffers::{
    OpeningBufferLease, OpeningBufferPool, PROXY_OPENING_BUFFER_LIMIT, buffer_bytes,
};
use crate::server::tproxy_quota::{
    AdmissionError, AdmissionState, DeviceQuota, DeviceQuotaRegistry, UdpQuotaLease,
    law_limits_only_rise, one_less, raised_limits, stage_of, udp_verdict,
};
use crate::text::same_text;

verus! {

/// Relays that are held ready.
pub const ASSOCIATION_POOL_TARGET: usize = 4;

/// Milliseconds without new relays after one could not be set up.
pub const ASSOCIATION_BACKOFF_MS: i64 = 2000;

/// Datagrams of one client that wait for their relay.
pub const OPENING_PENDING_LIMIT: usize = 64;

/// Bytes of one client that wait for their relay.
pub const OPENING_PENDING_BYTES: usize = 65536;

/// Clients that wait for their relay.
pub const MAX_CONCURRENT_OPENINGS: usize = 64;

/// Milliseconds after which an unused flow ends.
pub const UDP_FLOW_IDLE_MS: i64 = 60000;

/// Longest pause after a receive error, in milliseconds.
pub const MAX_RECV_BACKOFF_MS: u64 = 50;

/// An IPv4 address with a port.
#[derive(Clone, Copy, Debug, PartialEq, Eq, Structural)]
pub struct ClientAddr {
    pub ip: Ipv4,
    pub port: u16,
}

/// A flow of one client.
#[derive(Clone, Copy, Debug, PartialEq, Eq, Structural)]
pub struct UdpFlow {
    pub client: ClientAddr,
    pub last_seen: i64,
    pub finished: bool,
    pub cancelled: bool,
    pub lease: UdpQuotaLease,
}

/// A datagram that waits for its relay.
pub struct OpeningDatagram {
    pub destination: ClientAddr,
    pub buffer: OpeningBufferLease,
}

/// The datagrams of a client that wait for their relay.
pub struct OpeningQueue {
    pub client: ClientAddr,
    pub pending: Vec<OpeningDatagram>,
    pub bytes: usize,
}

impl OpeningQueue {
    /// The limits hold.
    pub open spec fn wf(&self) -> bool {
        self.pending@.len() <= OPENING_PENDING_LIMIT && self.bytes <= OPENING_PENDING_BYTES
    }

    /// Nothing waits.
    pub fn new(client: ClientAddr) -> (r: Self)
        ensures
            r.wf(),
            r.client == client,
            r.pending@.len() == 0,
            r.bytes == 0,
    {
        OpeningQueue { client, pending: Vec::new(), bytes: 0 }
    }

    /// Whether one more datagram of `len` bytes may wait.
    pub fn has_room(&self, len: usize) -> (r: bool)
        requires
            self.wf(),
        ensures
            r == (self.pending@.len() < OPENING_PENDING_LIMIT && self.bytes + len
                <= OPENING_PENDING_BYTES),
    {
        self.pending.len() < OPENING_PENDING_LIMIT && len <= OPENING_PENDING_BYTES - self.bytes
    }

    /// Lets a datagram wait in storage of its length; `None` is storage that was refused.
    pub fn keep(
        &mut self,
        destination: ClientAddr,
        payload: &[u8],
        storage: Option<OpeningBufferLease>,
    ) -> (r: bool)
        requires
            old(self).wf(),
            old(self).pending@.len() < OPENING_PENDING_LIMIT,
            old(self).bytes + payload@.len() <= OPENING_PENDING_BYTES,
            storage is Some ==> buffer_bytes(storage->0.storage).len() == payload@.len(),
        ensures
            final(self).wf(),
            final(self).client == old(self).client,
            r == (storage is Some),
            !r ==> *final(self) == *old(self),
            r ==> {
                &&& final(self).bytes == old(self).bytes + payload@.len()
                &&& final(self).pending@.len() == old(self).pending@.len() + 1
                &&& final(self).pending@.drop_last() == old(self).pending@
                &&& final(self).pending@.last().destination == destination
                &&& buffer_bytes(final(self).pending@.last().buffer.storage) == payload@
                &&& final(self).pending@.last().buffer.charged == storage->0.charged
            },
    {
        match storage {
            None => false,
            Some(mut buffer) => {
                buffer.fill(payload);
                self.bytes = self.bytes + payload.len();
                let ghost before = self.pending@;
                self.pending.push(OpeningDatagram { destination, buffer });
                proof {
                    assert(self.pending@.drop_last() =~= before);
                }
                true
            },
        }
    }

    /// Lets a datagram wait, where the limits of the client and the storage allow it. What
    /// storage takes beyond the length of the datagram is up to the allocator.
    pub fn push(
        &mut self,
        destination: ClientAddr,
        payload: &[u8],
        buffers: &mut OpeningBufferPool,
    ) -> (r: bool)
        requires
            old(self).wf(),
            old(buffers).wf(),
        ensures
            final(self).wf(),
            final(buffers).wf(),
            final(self).client == old(self).client,
            old(self).pending@.len() >= OPENING_PENDING_LIMIT || old(self).bytes + payload@.len()
                > OPENING_PENDING_BYTES || old(buffers).allocated_bytes + payload@.len()
                > PROXY_OPENING_BUFFER_LIMIT ==> !r,
            !r ==> *final(self) == *old(self) && *final(buffers) == *old(buffers),
            r ==> {
                &&& final(self).bytes == old(self).bytes + payload@.len()
                &&& final(self).pending@.len() == old(self).pending@.len() + 1
                &&& final(self).pending@.drop_last() == old(self).pending@
                &&& final(self).pending@.last().destination == destination
                &&& buffer_bytes(final(self).pending@.last().buffer.storage) == payload@
                &&& final(self).pending@.last().buffer.charged >= payload@.len()
                &&& final(buffers).allocated_bytes == old(buffers).allocated_bytes + final(self).pending@.last().buffer.charged
            },
    {
        if !self.has_room(payload.len()) {
            return false;
        }
        let storage = buffers.acquire(payload.len());
        self.keep(destination, payload, storage)
    }

    /// Takes all waiting datagrams, in the order in which they came.
    pub fn take(&mut self) -> (r: Vec<OpeningDatagram>)
        ensures
            final(self).wf(),
            final(self).client == old(self).client,
            final(self).pending@.len() == 0,
            final(self).bytes == 0,
            r@ == old(self).pending@,
    {
        self.bytes = 0;
        let mut r: Vec<OpeningDatagram> = Vec::new();
        core::mem::swap(&mut self.pending, &mut r);
        r
    }
}

// ---------------------------------------------------------------------------
// Flows
// ---------------------------------------------------------------------------

/// The position of a client's flow.
pub open spec fn flow_at(flows: Seq<UdpFlow>, client: ClientAddr) -> Option<int>
    decreases flows.len(),
{
    if flows.len() == 0 {
        None
    } else if flows.last().client == client {
        Some(flows.len() - 1)
    } else {
        flow_at(flows.drop_last(), client)
    }
}

/// No client has two flows.
pub open spec fn flows_unique(flows: Seq<UdpFlow>) -> bool {
    forall|i: int, j: int|
        #![trigger flows[i], flows[j]]
        0 <= i < j < flows.len() ==> flows[i].client != flows[j].client
}

/// Every flow counts against a known device.
pub open spec fn flows_leased(flows: Seq<UdpFlow>, devices: nat) -> bool {
    forall|i: int| 0 <= i < flows.len() ==> (#[trigger] flows[i]).lease.device < devices
}

proof fn lemma_flow_at(flows: Seq<UdpFlow>, client: ClientAddr)
    ensures
        match flow_at(flows, client) {
            Some(i) => 0 <= i < flows.len() && flows[i].client == client,
            None => forall|i: int| 0 <= i < flows.len() ==> (#[trigger] flows[i]).client != client,
        },
    decreases flows.len(),
{
    if flows.len() > 0 && flows.last().client != client {
        lemma_flow_at(flows.drop_last(), client);
        let d = flows.drop_last();
        if flow_at(flows, client) is None {
            assert forall|i: int| 0 <= i < flows.len() implies (#[trigger] flows[i]).client
                != client by {
                if i < d.len() {
                    assert(d[i].client != client);
                }
            }
        }
    }
}

fn find_flow(flows: &Vec<UdpFlow>, client: ClientAddr) -> (r: Option<usize>)
    ensures
        match r {
            Some(i) => i < flows@.len() && flow_at(flows@, client) == Some(i as int),
            None => flow_at(flows@, client) is None,
        },
{
    let mut n: usize = flows.len();
    proof {
        assert(flows@.take(n as int) =~= flows@);
    }
    while n > 0
        invariant
            n <= flows@.len(),
            flow_at(flows@, client) == flow_at(flows@.take(n as int), client),
        decreases n,
    {
        proof {
            assert(flows@.take(n as int).last() == flows@[n - 1]);
            assert(flows@.take(n as int).drop_last() =~= flows@.take(n - 1));
        }
        if flows[n - 1].client == client {
            return Some(n - 1);
        }
        n = n - 1;
    }
    None
}

/// The position of the flow that was not used for the longest time.
pub open spec fn oldest_flow(flows: Seq<UdpFlow>) -> Option<int>
    decreases flows.len(),
{
    if flows.len() == 0 {
        None
    } else {
        match oldest_flow(flows.drop_last()) {
            None => Some(0),
            Some(i) => if flows.last().last_seen < flows[i].last_seen {
                Some(flows.len() - 1)
            } else {
                Some(i)
            },
        }
    }
}

proof fn lemma_oldest_flow(flows: Seq<UdpFlow>)
    ensures
        flows.len() > 0 ==> oldest_flow(flows) is Some && 0 <= oldest_flow(flows)->0 < flows.len()
            && forall|j: int|
            0 <= j < flows.len() ==> flows[oldest_flow(flows)->0].last_seen <= (
            #[trigger] flows[j]).last_seen,
        flows.len() == 0 ==> oldest_flow(flows) is None,
    decreases flows.len(),
{
    if flows.len() > 0 {
        let d = flows.drop_last();
        lemma_oldest_flow(d);
        let k = oldest_flow(flows)->0;
        assert forall|j: int| 0 <= j < flows.len() implies flows[k].last_seen <= (
        #[trigger] flows[j]).last_seen by {
            if j < d.len() {
                assert(d[oldest_flow(d)->0].last_seen <= d[j].last_seen);
            }
        }
    }
}

/// A flow that is ended to make room is never one that was used later than another.
pub proof fn law_eviction_takes_the_oldest(flows: Seq<UdpFlow>, j: int)
    requires
        0 <= j < flows.len(),
    ensures
        oldest_flow(flows) is Some,
        0 <= oldest_flow(flows)->0 < flows.len(),
        flows[oldest_flow(flows)->0].last_seen <= flows[j].last_seen,
{
    lemma_oldest_flow(flows);
}

fn find_oldest(flows: &Vec<UdpFlow>) -> (r: Option<usize>)
    ensures
        match r {
            Some(i) => i < flows@.len() && oldest_flow(flows@) == Some(i as int),
            None => flows@.len() == 0 && oldest_flow(flows@) is None,
        },
{
    if flows.len() == 0 {
        return None;
    }
    let mut best: usize = 0;
    let mut i: usize = 1;
    proof {
        let one = flows@.take(1);
        assert(one.drop_last() =~= Seq::<UdpFlow>::empty());
        assert(oldest_flow(one.drop_last()) is None);
        assert(oldest_flow(one) == Some(0int));
    }
    while i < flows.len()
        invariant
            1 <= i <= flows@.len(),
            best < i,
            oldest_flow(flows@.take(i as int)) == Some(best as int),
        decreases flows@.len() - i,
    {
        proof {
            let t = flows@.take(i as int + 1);
            assert(t.drop_last() =~= flows@.take(i as int));
            assert(t.last() == flows@[i as int]);
            assert(t[best as int] == flows@[best as int]);
        }
        if flows[i].last_seen < flows[best].last_seen {
            best = i;
        }
        i = i + 1;
    }
    proof {
        assert(flows@.take(i as int) =~= flows@);
    }
    Some(best)
}

// ---------------------------------------------------------------------------
// Admission of flows
// ---------------------------------------------------------------------------

/// What decides about one more flow.
pub ghost struct UdpState {
    pub quotas: Seq<DeviceQuota>,
    pub admission: AdmissionState,
    pub flows: Seq<UdpFlow>,
    pub limits: (usize, usize),
    /// The clients whose flows ended.
    pub ended: Seq<ClientAddr>,
}

/// How a wish for a flow ends.
pub ghost enum UdpWish {
    Granted(UdpState),
    Refused(UdpState),
}

/// The quotas after a flow of a device ended.
pub open spec fn flow_returned(quotas: Seq<DeviceQuota>, device: int) -> Seq<DeviceQuota> {
    let q = quotas[device];
    quotas.update(device, DeviceQuota { udp_active: one_less(q.udp_active), ..q })
}

/// The state after the flow at a position ended.
pub open spec fn flow_ended(s: UdpState, i: int) -> UdpState {
    UdpState {
        quotas: flow_returned(s.quotas, s.flows[i].lease.device as int),
        admission: AdmissionState { udp_active: one_less(s.admission.udp_active), ..s.admission },
        flows: s.flows.remove(i),
        limits: s.limits,
        ended: s.ended.push(s.flows[i].client),
    }
}

/// How a wish for a flow ends: where the limit is in the way it is raised as far as
/// memory allows; where it cannot be raised, the oldest flows end one after the other.
pub open spec fn udp_wish(s: UdpState, device: int, memory: Option<u64>) -> UdpWish
    decreases
            s.flows.len(),
            3 - (if stage_of(s.limits) is Some {
                stage_of(s.limits)->0
            } else {
                3
            }),
    when stage_of(s.limits) is Some
{
    let next = raised_limits(s.limits, memory);
    match udp_verdict(s.quotas, s.admission.udp_active, device, s.limits.1) {
        None => UdpWish::Granted(s),
        Some(AdmissionError::GlobalLimit) => if next != s.limits && stage_of(next) is Some
            && stage_of(next)->0 > stage_of(s.limits)->0 {
            udp_wish(UdpState { limits: next, ..s }, device, memory)
        } else {
            match oldest_flow(s.flows) {
                None => UdpWish::Refused(s),
                Some(i) => if 0 <= i < s.flows.len() {
                    udp_wish(flow_ended(s, i), device, memory)
                } else {
                    UdpWish::Refused(s)
                },
            }
        },
        Some(_) => UdpWish::Refused(s),
    }
}

/// A flow that is granted is within the limits. One is refused only where the device has
/// its share, or where no flow is left that could end for it.
pub proof fn law_wishes_follow_limits(s: UdpState, device: int, memory: Option<u64>)
    requires
        stage_of(s.limits) is Some,
    ensures
        match udp_wish(s, device, memory) {
            UdpWish::Granted(t) => udp_verdict(
                t.quotas,
                t.admission.udp_active,
                device,
                t.limits.1,
            ) is None,
            UdpWish::Refused(t) => udp_verdict(
                t.quotas,
                t.admission.udp_active,
                device,
                t.limits.1,
            ) == Some(AdmissionError::DeviceLimit) || t.flows.len() == 0,
        },
    decreases
            s.flows.len(),
            3 - stage_of(s.limits)->0,
{
    lemma_oldest_flow(s.flows);
    let next = raised_limits(s.limits, memory);
    match udp_verdict(s.quotas, s.admission.udp_active, device, s.limits.1) {
        Some(AdmissionError::GlobalLimit) => {
            if next != s.limits && stage_of(next) is Some && stage_of(next)->0 > stage_of(
                s.limits,
            )->0 {
                law_wishes_follow_limits(UdpState { limits: next, ..s }, device, memory);
            } else {
                match oldest_flow(s.flows) {
                    None => {},
                    Some(i) => {
                        law_wishes_follow_limits(flow_ended(s, i), device, memory);
                    },
                }
            }
        },
        _ => {},
    }
}

/// What the registry and the flows are at present.
pub open spec fn udp_state(
    registry: DeviceQuotaRegistry,
    flows: Seq<UdpFlow>,
    ended: Seq<ClientAddr>,
) -> UdpState {
    UdpState {
        quotas: registry.quotas@,
        admission: registry.admission,
        flows,
        limits: (registry.capacity.tcp_limit, registry.capacity.udp_limit),
        ended,
    }
}

/// The state after one more flow of a device was admitted.
pub open spec fn flow_admitted(s: UdpState, device: int) -> UdpState {
    let q = s.quotas[device];
    UdpState {
        quotas: s.quotas.update(
            device,
            DeviceQuota { udp_active: (q.udp_active + 1) as usize, ..q },
        ),
        admission: AdmissionState {
            udp_active: (s.admission.udp_active + 1) as usize,
            ..s.admission
        },
        ..s
    }
}

/// The place of the device that an address belongs to, if it is active.
pub open spec fn device_for(registry: DeviceQuotaRegistry, ip: Ipv4) -> Option<int> {
    match registry.index_of(ip) {
        Some(i) => if registry.quotas@[i as int].cancelled {
            None
        } else {
            Some(i as int)
        },
        None => None,
    }
}

/// The state after a client's wish for a flow, and whether it has the flow.
pub open spec fn flow_started(
    s: UdpState,
    device: Option<int>,
    client: ClientAddr,
    now: i64,
    memory: Option<u64>,
) -> (UdpState, bool) {
    match device {
        None => (s, false),
        Some(device) => match udp_wish(s, device, memory) {
            UdpWish::Refused(t) => (t, false),
            UdpWish::Granted(t) => {
                let admitted = flow_admitted(t, device);
                (
                    UdpState {
                        flows: admitted.flows.push(
                            UdpFlow {
                                client,
                                last_seen: now,
                                finished: false,
                                cancelled: false,
                                lease: UdpQuotaLease { device: device as usize },
                            },
                        ),
                        ..admitted
                    },
                    true,
                )
            },
        },
    }
}

/// Ends the flow at a position.
fn end_flow(
    registry: &mut DeviceQuotaRegistry,
    flows: &mut Vec<UdpFlow>,
    ended: &mut Vec<ClientAddr>,
    at: usize,
)
    requires
        old(registry).wf(),
        at < old(flows)@.len(),
        flows_unique(old(flows)@),
        flows_leased(old(flows)@, old(registry).quotas@.len()),
    ensures
        final(registry).wf(),
        final(registry).same_devices(old(registry)),
        final(registry).same_sessions(old(registry)),
        final(registry).quotas@.len() == old(registry).quotas@.len(),
        final(registry).capacity == old(registry).capacity,
        forall|k: int|
            0 <= k < old(registry).quotas@.len() ==> (#[trigger] final(registry).quotas@[k]).cancelled == old(registry).quotas@[k].cancelled,
        udp_state(*final(registry), final(flows)@, final(ended)@) == flow_ended(
            udp_state(*old(registry), old(flows)@, old(ended)@),
            at as int,
        ),
        flows_unique(final(flows)@),
        flows_leased(final(flows)@, final(registry).quotas@.len()),
{
    let ghost before = flows@;
    let flow = flows.remove(at);
    registry.release_udp(flow.lease);
    ended.push(flow.client);
    proof {
        let after = flows@;
        assert forall|i: int, j: int|
            #![trigger after[i], after[j]]
            0 <= i < j < after.len() implies after[i].client != after[j].client by {
            let a = if i < at {
                i
            } else {
                i + 1
            };
            let b = if j < at {
                j
            } else {
                j + 1
            };
            assert(before[a].client != before[b].client);
        }
        assert forall|i: int| 0 <= i < after.len() implies (#[trigger] after[i]).lease.device
            < registry.quotas@.len() by {
            let a = if i < at {
                i
            } else {
                i + 1
            };
            assert(before[a].lease.device < registry.quotas@.len());
        }
        assert(udp_state(*registry, after, ended@) == flow_ended(
            udp_state(*old(registry), before, old(ended)@),
            at as int,
        ));
    }
}

/// Tries to admit a flow. The clients of flows that ended for it are added to `ended`.
pub fn acquire_udp_quota(
    registry: &mut DeviceQuotaRegistry,
    flows: &mut Vec<UdpFlow>,
    ended: &mut Vec<ClientAddr>,
    ip: Ipv4,
    available_memory: Option<u64>,
) -> (r: Option<UdpQuotaLease>)
    requires
        old(registry).wf(),
        flows_unique(old(flows)@),
        flows_leased(old(flows)@, old(registry).quotas@.len()),
    ensures
        final(registry).wf(),
        final(registry).same_devices(old(registry)),
        final(registry).same_sessions(old(registry)),
        final(registry).quotas@.len() == old(registry).quotas@.len(),
        flows_unique(final(flows)@),
        flows_leased(final(flows)@, final(registry).quotas@.len()),
        ({
            let device = device_for(*old(registry), ip);
            let s = udp_state(*old(registry), old(flows)@, old(ended)@);
            let after = udp_state(*final(registry), final(flows)@, final(ended)@);
            match device {
                None => r is None && after == s,
                Some(device) => match udp_wish(s, device, available_memory) {
                    UdpWish::Granted(t) => r is Some && r->0.device == device && after
                        == flow_admitted(t, device),
                    UdpWish::Refused(t) => r is None && after == t,
                },
            }
        }),
{
    loop
        invariant
            registry.wf(),
            old(registry).wf(),
            registry.same_devices(old(registry)),
            registry.same_sessions(old(registry)),
            registry.quotas@.len() == old(registry).quotas@.len(),
            forall|k: int|
                0 <= k < registry.quotas@.len() ==> (#[trigger] registry.quotas@[k]).cancelled
                    == old(registry).quotas@[k].cancelled,
            flows_unique(flows@),
            flows_leased(flows@, registry.quotas@.len()),
            ({
                let s = udp_state(*old(registry), old(flows)@, old(ended)@);
                let now = udp_state(*registry, flows@, ended@);
                match device_for(*old(registry), ip) {
                    None => now == s,
                    Some(device) => udp_wish(s, device, available_memory) == udp_wish(
                        now,
                        device,
                        available_memory,
                    ),
                }
            }),
        decreases
                flows@.len(),
                3 - stage_of((registry.capacity.tcp_limit, registry.capacity.udp_limit))->0,
    {
        proof {
            assert(registry.index_of(ip) == old(registry).index_of(ip));
            law_limits_only_rise(
                (registry.capacity.tcp_limit, registry.capacity.udp_limit),
                available_memory,
            );
            lemma_oldest_flow(flows@);
        }
        let ghost before = *registry;
        match registry.try_acquire_udp(ip) {
            Ok(lease) => {
                proof {
                    assert(udp_state(*registry, flows@, ended@) == flow_admitted(
                        udp_state(before, flows@, ended@),
                        lease.device as int,
                    ));
                }
                return Some(lease);
            },
            Err(error) => {
                proof {
                    assert(udp_state(*registry, flows@, ended@) == udp_state(before, flows@, ended@));
                }
                match error {
                    AdmissionError::Inactive => {
                        return None;
                    },
                    AdmissionError::DeviceLimit => {
                        return None;
                    },
                    AdmissionError::GlobalLimit => {},
                }
            },
        }
        if registry.capacity.try_expand(available_memory) {
            continue ;
        }
        match find_oldest(flows) {
            None => {
                return None;
            },
            Some(at) => {
                end_flow(registry, flows, ended, at);
            },
        }
    }
}

// ---------------------------------------------------------------------------
// The engine
// ---------------------------------------------------------------------------

/// What a datagram of a client leads to.
#[derive(Clone, Copy, Debug, PartialEq, Eq, Structural)]
pub enum DatagramStep {
    /// It goes through the client's flow.
    Forward,
    /// It waits with others for the client's relay.
    Queue,
    /// It is dropped.
    Drop,
    /// It is dropped, and counted as refused.
    Refuse,
    /// A ready relay becomes the client's flow, and it goes through that.
    Open,
    /// It waits, and a relay is set up for the client.
    StartOpening,
}

/// What a datagram leads to, with the clients whose flows ended for it and the relays to
/// be set up.
#[derive(Debug)]
pub struct DatagramOutcome {
    pub step: DatagramStep,
    pub ended: Vec<ClientAddr>,
    pub refills: usize,
}

/// The state of the UDP side.
pub struct UdpEngine {
    pub flows: Vec<UdpFlow>,
    pub opening: Vec<OpeningQueue>,
    /// Relays that are ready.
    pub ready: usize,
    pub refills_in_flight: usize,
    pub failed_at: Option<i64>,
    pub failure: String,
    pub served: u64,
    pub datagrams: u64,
    pub recv_backoff_ms: u64,
}

/// The position of a client among those that wait.
pub open spec fn opening_at(opening: Seq<OpeningQueue>, client: ClientAddr) -> Option<int>
    decreases opening.len(),
{
    if opening.len() == 0 {
        None
    } else if opening.last().client == client {
        Some(opening.len() - 1)
    } else {
        opening_at(opening.drop_last(), client)
    }
}

/// The client has no flow.
pub open spec fn no_flow(flows: Seq<UdpFlow>, client: ClientAddr) -> bool {
    forall|i: int| 0 <= i < flows.len() ==> (#[trigger] flows[i]).client != client
}

/// No client waits twice, and none that waits has a flow.
pub open spec fn openings_apart(flows: Seq<UdpFlow>, opening: Seq<OpeningQueue>) -> bool {
    &&& forall|i: int, j: int|
        #![trigger opening[i], opening[j]]
        0 <= i < j < opening.len() ==> opening[i].client != opening[j].client
    &&& forall|i: int| 0 <= i < opening.len() ==> no_flow(flows, (#[trigger] opening[i]).client)
}

proof fn lemma_opening_at(opening: Seq<OpeningQueue>, client: ClientAddr)
    ensures
        match opening_at(opening, client) {
            Some(i) => 0 <= i < opening.len() && opening[i].client == client,
            None => forall|i: int|
                0 <= i < opening.len() ==> (#[trigger] opening[i]).client != client,
        },
    decreases opening.len(),
{
    if opening.len() > 0 && opening.last().client != client {
        lemma_opening_at(opening.drop_last(), client);
        let d = opening.drop_last();
        if opening_at(opening, client) is None {
            assert forall|i: int| 0 <= i < opening.len() implies (#[trigger] opening[i]).client
                != client by {
                if i < d.len() {
                    assert(d[i].client != client);
                }
            }
        }
    }
}

proof fn lemma_opening_removed(flows: Seq<UdpFlow>, opening: Seq<OpeningQueue>, at: int)
    requires
        0 <= at < opening.len(),
        openings_apart(flows, opening),
        forall|i: int| 0 <= i < opening.len() ==> (#[trigger] opening[i]).wf(),
    ensures
        openings_apart(flows, opening.remove(at)),
        forall|i: int| 0 <= i < opening.remove(at).len() ==> (#[trigger] opening.remove(at)[i]).wf(),
        opening_at(opening.remove(at), opening[at].client) is None,
        no_flow(flows, opening[at].client),
{
    let after = opening.remove(at);
    assert forall|i: int, j: int|
        #![trigger after[i], after[j]]
        0 <= i < j < after.len() implies after[i].client != after[j].client by {
        let a = if i < at {
            i
        } else {
            i + 1
        };
        let b = if j < at {
            j
        } else {
            j + 1
        };
        assert(opening[a].client != opening[b].client);
    }
    assert forall|i: int| 0 <= i < after.len() implies (#[trigger] after[i]).wf() && no_flow(
        flows,
        after[i].client,
    ) && after[i].client != opening[at].client by {
        let a = if i < at {
            i
        } else {
            i + 1
        };
        assert(opening[a].wf());
        assert(no_flow(flows, opening[a].client));
        if i < at {
            assert(opening[a].client != opening[at].client);
        } else {
            assert(opening[at].client != opening[a].client);
        }
    }
    lemma_opening_at(after, opening[at].client);
}

/// How many more relays are set up.
pub open spec fn refills_wanted(ready: usize, in_flight: usize) -> nat {
    if ready + in_flight < ASSOCIATION_POOL_TARGET {
        (ASSOCIATION_POOL_TARGET - ready - in_flight) as nat
    } else {
        0
    }
}

/// Whether relays are not set up at present because one failed a moment ago.
pub open spec fn backing_off(failed_at: Option<i64>, now: i64) -> bool {
    failed_at is Some && now - failed_at->0 < ASSOCIATION_BACKOFF_MS
}

/// A flow that has come to its end.
pub open spec fn flow_over(flow: UdpFlow, now: i64) -> bool {
    flow.cancelled || flow.finished || now - flow.last_seen > UDP_FLOW_IDLE_MS
}

/// The flows of a state after those that are over ended, the last one first.
pub open spec fn swept(s: UdpState, n: int, now: i64) -> UdpState
    decreases n,
{
    if n <= 0 {
        s
    } else if flow_over(s.flows[n - 1], now) {
        swept(flow_ended(s, n - 1), n - 1, now)
    } else {
        swept(s, n - 1, now)
    }
}

/// How long the set-up of further relays waits, in milliseconds: after one that failed
/// there is a pause.
pub fn refill_delay(ok: bool) -> (r: Option<i64>)
    ensures
        r == (if ok {
            None
        } else {
            Some(ASSOCIATION_BACKOFF_MS)
        }),
{
    if ok {
        None
    } else {
        Some(ASSOCIATION_BACKOFF_MS)
    }
}

/// The pause after a receive error that follows a pause.
pub open spec fn pause_after(ms: u64) -> int {
    let base = if ms < 1 {
        1
    } else {
        ms as int
    };
    if base * 2 < MAX_RECV_BACKOFF_MS {
        base * 2
    } else {
        MAX_RECV_BACKOFF_MS as int
    }
}

/// What taking a datagram of a client does.
pub open spec fn datagram_taken(
    old_engine: UdpEngine,
    registry: DeviceQuotaRegistry,
    engine: UdpEngine,
    after_registry: DeviceQuotaRegistry,
    client: ClientAddr,
    now: i64,
    available_memory: Option<u64>,
    r: DatagramOutcome,
) -> bool {
    let found = flow_at(old_engine.flows@, client);
    let s = udp_state(registry, old_engine.flows@, Seq::empty());
    let after = udp_state(after_registry, engine.flows@, r.ended@);
    let waits = opening_at(old_engine.opening@, client) is Some;
    let paused = backing_off(old_engine.failed_at, now);
    let t = if found is Some {
        flow_ended(s, found->0)
    } else {
        s
    };
    let started = flow_started(
        t,
        device_for(registry, client.ip),
        client,
        now,
        available_memory,
    );
    let living = found is Some && !old_engine.flows@[found->0].finished;
    let full = old_engine.opening@.len() >= MAX_CONCURRENT_OPENINGS;
    &&& r.step == (if living {
        DatagramStep::Forward
    } else if waits {
        DatagramStep::Queue
    } else if paused || full {
        DatagramStep::Drop
    } else if old_engine.ready == 0 {
        DatagramStep::StartOpening
    } else if started.1 {
        DatagramStep::Open
    } else {
        DatagramStep::Refuse
    })
    &&& after == (match r.step {
        DatagramStep::Forward => UdpState {
            flows: s.flows.update(
                found->0,
                UdpFlow { last_seen: now, ..s.flows[found->0] },
            ),
            ..s
        },
        DatagramStep::Open => started.0,
        DatagramStep::Refuse => started.0,
        _ => t,
    })
    &&& r.refills == (match r.step {
        DatagramStep::Open => refills_wanted(
            (old_engine.ready - 1) as usize,
            old_engine.refills_in_flight,
        ),
        DatagramStep::StartOpening => refills_wanted(0, old_engine.refills_in_flight),
        _ => 0,
    })
    &&& engine.refills_in_flight == old_engine.refills_in_flight + r.refills
    &&& engine.ready == old_engine.ready - (if r.step == DatagramStep::Open
        || r.step == DatagramStep::Refuse {
        1int
    } else {
        0int
    })
    &&& engine.served == (if r.step == DatagramStep::Open {
        next_count(old_engine.served)
    } else {
        old_engine.served
    })
    &&& engine.failed_at == (if living || waits || paused {
        old_engine.failed_at
    } else {
        None
    })
    &&& r.step != DatagramStep::StartOpening ==> engine.opening@ == old_engine.opening@
    &&& r.step == DatagramStep::StartOpening ==> {
        &&& engine.opening@.len() == old_engine.opening@.len() + 1
        &&& engine.opening@.drop_last() == old_engine.opening@
        &&& engine.opening@.last().client == client
        &&& engine.opening@.last().pending@.len() == 0
    }
}

impl UdpEngine {
    /// No client has two flows or waits twice; limits hold.
    pub open spec fn wf(&self) -> bool {
        &&& flows_unique(self.flows@)
        &&& self.opening@.len() <= MAX_CONCURRENT_OPENINGS
        &&& forall|i: int| 0 <= i < self.opening@.len() ==> (#[trigger] self.opening@[i]).wf()
        &&& openings_apart(self.flows@, self.opening@)
        &&& self.ready <= ASSOCIATION_POOL_TARGET
        &&& self.refills_in_flight <= ASSOCIATION_POOL_TARGET
        &&& self.recv_backoff_ms <= MAX_RECV_BACKOFF_MS
    }

    /// Before the first datagram; the relays that are held ready are to be set up.
    pub fn new() -> (r: Self)
        ensures
            r.wf(),
            r.flows@.len() == 0,
            r.opening@.len() == 0,
            r.ready == 0,
            r.refills_in_flight == ASSOCIATION_POOL_TARGET,
            r.failed_at is None,
            r.served == 0,
            r.datagrams == 0,
            r.recv_backoff_ms == 0,
    {
        UdpEngine {
            flows: Vec::new(),
            opening: Vec::new(),
            ready: 0,
            refills_in_flight: ASSOCIATION_POOL_TARGET,
            failed_at: None,
            failure: String::new(),
            served: 0,
            datagrams: 0,
            recv_backoff_ms: 0,
        }
    }

    fn find_opening(&self, client: ClientAddr) -> (r: Option<usize>)
        ensures
            match r {
                Some(i) => i < self.opening@.len() && opening_at(self.opening@, client) == Some(
                    i as int,
                ),
                None => opening_at(self.opening@, client) is None,
            },
    {
        let mut n: usize = self.opening.len();
        proof {
            assert(self.opening@.take(n as int) =~= self.opening@);
        }
        while n > 0
            invariant
                n <= self.opening@.len(),
                opening_at(self.opening@, client) == opening_at(
                    self.opening@.take(n as int),
                    client,
                ),
            decreases n,
        {
            proof {
                assert(self.opening@.take(n as int).last() == self.opening@[n - 1]);
                assert(self.opening@.take(n as int).drop_last() =~= self.opening@.take(n - 1));
            }
            if self.opening[n - 1].client == client {
                return Some(n - 1);
            }
            n = n - 1;
        }
        None
    }

    /// Accounts for the relays that are set up next; gives their number.
    fn refill(&mut self) -> (r: usize)
        requires
            old(self).ready <= ASSOCIATION_POOL_TARGET,
            old(self).refills_in_flight <= ASSOCIATION_POOL_TARGET,
        ensures
            r == refills_wanted(old(self).ready, old(self).refills_in_flight),
            *final(self) == (UdpEngine {
                refills_in_flight: (old(self).refills_in_flight + r) as usize,
                ..*old(self)
            }),
            final(self).refills_in_flight <= ASSOCIATION_POOL_TARGET,
    {
        let have: usize = self.ready + self.refills_in_flight;
        if have >= ASSOCIATION_POOL_TARGET {
            return 0;
        }
        let r: usize = ASSOCIATION_POOL_TARGET - have;
        self.refills_in_flight = self.refills_in_flight + r;
        r
    }

    /// Takes a datagram of a client. A living flow takes it; without one it waits, opens
    /// a ready relay, or has one set up, as far as limits allow.
    #[verifier::rlimit(40)]
    pub fn on_datagram(
        &mut self,
        registry: &mut DeviceQuotaRegistry,
        client: ClientAddr,
        now: i64,
        available_memory: Option<u64>,
    ) -> (r: DatagramOutcome)
        requires
            old(registry).wf(),
            old(self).wf(),
            flows_leased(old(self).flows@, old(registry).quotas@.len()),
        ensures
            final(registry).wf(),
            final(registry).same_devices(old(registry)),
            final(registry).same_sessions(old(registry)),
            final(registry).quotas@.len() == old(registry).quotas@.len(),
            final(self).wf(),
            flows_leased(final(self).flows@, final(registry).quotas@.len()),
            final(self).datagrams == next_count(old(self).datagrams),
            final(self).recv_backoff_ms == 0,
            final(self).failure == old(self).failure,
            datagram_taken(
                *old(self),
                *old(registry),
                *final(self),
                *final(registry),
                client,
                now,
                available_memory,
                r,
            ),
    {
        let mut ended: Vec<ClientAddr> = Vec::new();
        self.datagrams = self.datagrams.wrapping_add(1);
        self.recv_backoff_ms = 0;
        proof {
            assert(ended@ =~= Seq::<ClientAddr>::empty());
            lemma_flow_at(self.flows@, client);
            lemma_opening_at(self.opening@, client);
        }
        let ghost before = self.flows@;
        if let Some(i) = find_flow(&self.flows, client) {
            let mut flow = self.flows[i];
            if !flow.finished {
                flow.last_seen = now;
                self.flows.set(i, flow);
                proof {
                    lemma_update_keeps_apart(before, i as int, flow, self.opening@);
                }
                return DatagramOutcome { step: DatagramStep::Forward, ended, refills: 0 };
            }
            end_flow(registry, &mut self.flows, &mut ended, i);
            proof {
                lemma_removal_keeps_apart(before, i as int, self.opening@);
                lemma_removal_is_absent(before, i as int);
            }
        }
        if self.find_opening(client).is_some() {
            return DatagramOutcome { step: DatagramStep::Queue, ended, refills: 0 };
        }
        if let Some(at) = self.failed_at {
            if (now as i128) - (at as i128) < ASSOCIATION_BACKOFF_MS as i128 {
                return DatagramOutcome { step: DatagramStep::Drop, ended, refills: 0 };
            }
            self.failed_at = None;
        }
        if self.opening.len() >= MAX_CONCURRENT_OPENINGS {
            return DatagramOutcome { step: DatagramStep::Drop, ended, refills: 0 };
        }
        if self.ready > 0 {
            self.ready = self.ready - 1;
            if !self.start_flow(registry, &mut ended, client, now, available_memory) {
                return DatagramOutcome { step: DatagramStep::Refuse, ended, refills: 0 };
            }
            let refills = self.refill();
            return DatagramOutcome { step: DatagramStep::Open, ended, refills };
        }
        let ghost waiting = self.opening@;
        self.opening.push(OpeningQueue::new(client));
        proof {
            assert(self.opening@.drop_last() =~= waiting);
        }
        let refills = self.refill();
        DatagramOutcome { step: DatagramStep::StartOpening, ended, refills }
    }

    /// Opens a flow for a client that has none, where limits allow it.
    fn start_flow(
        &mut self,
        registry: &mut DeviceQuotaRegistry,
        ended: &mut Vec<ClientAddr>,
        client: ClientAddr,
        now: i64,
        available_memory: Option<u64>,
    ) -> (r: bool)
        requires
            old(registry).wf(),
            old(self).wf(),
            flows_leased(old(self).flows@, old(registry).quotas@.len()),
            no_flow(old(self).flows@, client),
            opening_at(old(self).opening@, client) is None,
        ensures
            final(registry).wf(),
            final(registry).same_devices(old(registry)),
            final(registry).same_sessions(old(registry)),
            final(registry).quotas@.len() == old(registry).quotas@.len(),
            final(self).wf(),
            flows_leased(final(self).flows@, final(registry).quotas@.len()),
            final(self).opening == old(self).opening,
            final(self).ready == old(self).ready,
            final(self).refills_in_flight == old(self).refills_in_flight,
            final(self).failed_at == old(self).failed_at,
            final(self).failure == old(self).failure,
            final(self).datagrams == old(self).datagrams,
            final(self).recv_backoff_ms == old(self).recv_backoff_ms,
            final(self).served == (if r {
                next_count(old(self).served)
            } else {
                old(self).served
            }),
            flow_started(
                udp_state(*old(registry), old(self).flows@, old(ended)@),
                device_for(*old(registry), client.ip),
                client,
                now,
                available_memory,
            ) == (udp_state(*final(registry), final(self).flows@, final(ended)@), r),
    {
        proof {
            lemma_opening_at(self.opening@, client);
            if device_for(*registry, client.ip) is Some {
                let device = device_for(*registry, client.ip)->0;
                let s = udp_state(*registry, self.flows@, ended@);
                lemma_wish_keeps_absent(s, device, available_memory, client);
                lemma_wish_keeps_apart(s, device, available_memory, self.opening@);
            }
        }
        let lease = match acquire_udp_quota(
            registry,
            &mut self.flows,
            ended,
            client.ip,
            available_memory,
        ) {
            Some(lease) => lease,
            None => {
                return false;
            },
        };
        self.served = self.served.wrapping_add(1);
        let flow = UdpFlow { client, last_seen: now, finished: false, cancelled: false, lease };
        proof {
            lemma_push_keeps_apart(self.flows@, flow, self.opening@, registry.quotas@.len());
        }
        self.flows.push(flow);
        true
    }

    /// Lets a datagram wait for its client's relay, where the limits of the client and the
    /// storage allow it.
    pub fn enqueue(
        &mut self,
        client: ClientAddr,
        destination: ClientAddr,
        payload: &[u8],
        buffers: &mut OpeningBufferPool,
    ) -> (r: bool)
        requires
            old(self).wf(),
            old(buffers).wf(),
        ensures
            final(self).wf(),
            final(buffers).wf(),
            final(self).flows == old(self).flows,
            final(self).ready == old(self).ready,
            final(self).refills_in_flight == old(self).refills_in_flight,
            final(self).failed_at == old(self).failed_at,
            final(self).failure == old(self).failure,
            final(self).served == old(self).served,
            final(self).datagrams == old(self).datagrams,
            final(self).recv_backoff_ms == old(self).recv_backoff_ms,
            !r ==> final(self).opening@ == old(self).opening@ && *final(buffers) == *old(buffers),
            ({
                let at = opening_at(old(self).opening@, client);
                match at {
                    None => !r,
                    Some(i) => {
                        let before = old(self).opening@[i];
                        let after = final(self).opening@[i];
                        &&& before.pending@.len() >= OPENING_PENDING_LIMIT || before.bytes
                            + payload@.len() > OPENING_PENDING_BYTES || old(buffers).allocated_bytes + payload@.len() > PROXY_OPENING_BUFFER_LIMIT ==> !r
                        &&& final(self).opening@ == old(self).opening@.update(i, after)
                        &&& r ==> {
                            &&& after.client == client
                            &&& after.bytes == before.bytes + payload@.len()
                            &&& after.pending@.len() == before.pending@.len() + 1
                            &&& after.pending@.drop_last() == before.pending@
                            &&& after.pending@.last().destination == destination
                            &&& buffer_bytes(after.pending@.last().buffer.storage) == payload@
                            &&& final(buffers).allocated_bytes == old(buffers).allocated_bytes
                                + after.pending@.last().buffer.charged
                        }
                    },
                }
            }),
    {
        proof {
            lemma_opening_at(self.opening@, client);
        }
        match self.find_opening(client) {
            None => false,
            Some(i) => {
                let ghost before = self.opening@;
                let queue = &mut self.opening[i];
                let r = queue.push(destination, payload, buffers);
                proof {
                    let after = self.opening@;
                    assert(after =~= before.update(i as int, after[i as int]));
                    if !r {
                        assert(after =~= before);
                    }
                    assert forall|a: int, b: int|
                        #![trigger after[a], after[b]]
                        0 <= a < b < after.len() implies after[a].client != after[b].client by {
                        assert(before[a].client != before[b].client);
                    }
                    assert forall|a: int| 0 <= a < after.len() implies no_flow(
                        self.flows@,
                        (#[trigger] after[a]).client,
                    ) by {
                        assert(no_flow(self.flows@, before[a].client));
                    }
                    assert forall|a: int| 0 <= a < after.len() implies (
                    #[trigger] after[a]).wf() by {
                        assert(before[a].wf());
                    }
                }
                r
            },
        }
    }

    /// A relay that was to be held ready is there, or could not be set up. Gives whether
    /// it is kept, and how many more are set up.
    pub fn on_pool_result(&mut self, ok: bool) -> (r: (bool, usize))
        requires
            old(self).wf(),
        ensures
            final(self).wf(),
            pool_answered(*old(self), *final(self), ok, r),
    {
        self.refills_in_flight = self.refills_in_flight.saturating_sub(1);
        let keep = ok && self.ready < ASSOCIATION_POOL_TARGET;
        if keep {
            self.ready = self.ready + 1;
        }
        let refills = self.refill();
        (keep, refills)
    }

    /// The pause after a receive error: twice the last one, from two to fifty
    /// milliseconds.
    pub fn on_recv_error(&mut self) -> (r: u64)
        requires
            old(self).wf(),
        ensures
            final(self).wf(),
            r == pause_after(old(self).recv_backoff_ms),
            *final(self) == (UdpEngine { recv_backoff_ms: r, ..*old(self) }),
    {
        let base: u64 = if self.recv_backoff_ms < 1 {
            1
        } else {
            self.recv_backoff_ms
        };
        let doubled: u64 = base * 2;
        self.recv_backoff_ms = if doubled < MAX_RECV_BACKOFF_MS {
            doubled
        } else {
            MAX_RECV_BACKOFF_MS
        };
        self.recv_backoff_ms
    }

    /// A relay for a client is there: it becomes the client's flow, where limits allow it.
    /// Gives the datagrams that waited for it, the clients whose flows ended, and whether
    /// the flow was opened.
    pub fn on_opened(
        &mut self,
        registry: &mut DeviceQuotaRegistry,
        client: ClientAddr,
        now: i64,
        available_memory: Option<u64>,
    ) -> (r: (Vec<OpeningDatagram>, Vec<ClientAddr>, bool))
        requires
            old(registry).wf(),
            old(self).wf(),
            flows_leased(old(self).flows@, old(registry).quotas@.len()),
            opening_at(old(self).opening@, client) is Some,
        ensures
            final(registry).wf(),
            final(registry).same_devices(old(registry)),
            final(registry).same_sessions(old(registry)),
            final(registry).quotas@.len() == old(registry).quotas@.len(),
            final(self).wf(),
            flows_leased(final(self).flows@, final(registry).quotas@.len()),
            final(self).failed_at is None,
            final(self).failure == old(self).failure,
            final(self).ready == old(self).ready,
            final(self).refills_in_flight == old(self).refills_in_flight,
            final(self).datagrams == old(self).datagrams,
            final(self).recv_backoff_ms == old(self).recv_backoff_ms,
            final(self).served == (if r.2 {
                next_count(old(self).served)
            } else {
                old(self).served
            }),
            r.0@ == old(self).opening@[opening_at(old(self).opening@, client)->0].pending@,
            final(self).opening@ == old(self).opening@.remove(
                opening_at(old(self).opening@, client)->0,
            ),
            flow_started(
                udp_state(*old(registry), old(self).flows@, Seq::empty()),
                device_for(*old(registry), client.ip),
                client,
                now,
                available_memory,
            ) == (udp_state(*final(registry), final(self).flows@, r.1@), r.2),
    {
        proof {
            lemma_opening_at(self.opening@, client);
        }
        let pending = self.take_opening(client);
        self.failed_at = None;
        let mut ended: Vec<ClientAddr> = Vec::new();
        proof {
            assert(ended@ =~= Seq::<ClientAddr>::empty());
        }
        let opened = self.start_flow(registry, &mut ended, client, now, available_memory);
        (pending, ended, opened)
    }

    /// Takes the datagrams of a client that wait.
    fn take_opening(&mut self, client: ClientAddr) -> (r: Vec<
        OpeningDatagram,
    >)
        requires
            old(self).wf(),
        ensures
            final(self).wf(),
            final(self).flows == old(self).flows,
            final(self).ready == old(self).ready,
            final(self).refills_in_flight == old(self).refills_in_flight,
            final(self).failed_at == old(self).failed_at,
            final(self).failure == old(self).failure,
            final(self).served == old(self).served,
            final(self).datagrams == old(self).datagrams,
            final(self).recv_backoff_ms == old(self).recv_backoff_ms,
            opening_at(final(self).opening@, client) is None,
            r@ == (match opening_at(old(self).opening@, client) {
                Some(i) => old(self).opening@[i].pending@,
                None => Seq::empty(),
            }),
            final(self).opening@ == (match opening_at(old(self).opening@, client) {
                Some(i) => old(self).opening@.remove(i),
                None => old(self).opening@,
            }),
    {
        proof {
            lemma_opening_at(self.opening@, client);
        }
        match self.find_opening(client) {
            None => {
                let r: Vec<OpeningDatagram> = Vec::new();
                proof {
                    assert(r@ =~= Seq::<OpeningDatagram>::empty());
                }
                r
            },
            Some(i) => {
                let ghost before = self.opening@;
                let mut queue = self.opening.remove(i);
                proof {
                    lemma_opening_removed(self.flows@, before, i as int);
                }
                queue.take()
            },
        }
    }

    /// A relay for a client could not be set up. Gives the datagrams that waited for it,
    /// and whether the failure is reported: it differs from the last one.
    pub fn on_open_failed(&mut self, client: ClientAddr, error: String, now: i64)
        -> (r: (Vec<OpeningDatagram>, bool))
        requires
            old(self).wf(),
        ensures
            final(self).wf(),
            final(self).flows == old(self).flows,
            final(self).failed_at == Some(now),
            final(self).failure == error,
            final(self).ready == old(self).ready,
            final(self).refills_in_flight == old(self).refills_in_flight,
            final(self).served == old(self).served,
            final(self).datagrams == old(self).datagrams,
            final(self).recv_backoff_ms == old(self).recv_backoff_ms,
            r.0@ == (match opening_at(old(self).opening@, client) {
                Some(i) => old(self).opening@[i].pending@,
                None => Seq::empty(),
            }),
            final(self).opening@ == (match opening_at(old(self).opening@, client) {
                Some(i) => old(self).opening@.remove(i),
                None => old(self).opening@,
            }),
            r.1 == (old(self).failed_at is None || old(self).failure@ != error@),
    {
        let pending = self.take_opening(client);
        let report = self.failed_at.is_none() || !same_text(self.failure.as_str(), error.as_str());
        self.failed_at = Some(now);
        self.failure = error;
        (pending, report)
    }

    /// An answer came through the flow of a client, which so stays in use.
    pub fn touch(&mut self, client: ClientAddr, now: i64)
        requires
            old(self).wf(),
        ensures
            final(self).wf(),
            final(self).opening == old(self).opening,
            final(self).ready == old(self).ready,
            final(self).refills_in_flight == old(self).refills_in_flight,
            final(self).failed_at == old(self).failed_at,
            final(self).failure == old(self).failure,
            final(self).served == old(self).served,
            final(self).datagrams == old(self).datagrams,
            final(self).recv_backoff_ms == old(self).recv_backoff_ms,
            final(self).flows@ == (match flow_at(old(self).flows@, client) {
                Some(i) => old(self).flows@.update(
                    i,
                    UdpFlow { last_seen: now, ..old(self).flows@[i] },
                ),
                None => old(self).flows@,
            }),
    {
        if let Some(i) = find_flow(&self.flows, client) {
            let ghost before = self.flows@;
            let mut flow = self.flows[i];
            flow.last_seen = now;
            self.flows.set(i, flow);
            proof {
                lemma_flow_at(before, client);
                lemma_update_keeps_apart(before, i as int, flow, self.opening@);
            }
        }
    }

    /// Marks the flow of a client as finished: its relay is gone.
    pub fn mark_finished(&mut self, client: ClientAddr)
        requires
            old(self).wf(),
        ensures
            final(self).wf(),
            final(self).opening == old(self).opening,
            final(self).ready == old(self).ready,
            final(self).refills_in_flight == old(self).refills_in_flight,
            final(self).failed_at == old(self).failed_at,
            final(self).failure == old(self).failure,
            final(self).served == old(self).served,
            final(self).datagrams == old(self).datagrams,
            final(self).recv_backoff_ms == old(self).recv_backoff_ms,
            final(self).flows@ == (match flow_at(old(self).flows@, client) {
                Some(i) => old(self).flows@.update(
                    i,
                    UdpFlow { finished: true, ..old(self).flows@[i] },
                ),
                None => old(self).flows@,
            }),
    {
        if let Some(i) = find_flow(&self.flows, client) {
            let ghost before = self.flows@;
            let mut flow = self.flows[i];
            flow.finished = true;
            self.flows.set(i, flow);
            proof {
                lemma_flow_at(before, client);
                lemma_update_keeps_apart(before, i as int, flow, self.opening@);
            }
        }
    }

    /// Ends every flow that is over; gives their clients.
    pub fn sweep(&mut self, registry: &mut DeviceQuotaRegistry, now: i64) -> (r: Vec<ClientAddr>)
        requires
            old(registry).wf(),
            old(self).wf(),
            flows_leased(old(self).flows@, old(registry).quotas@.len()),
        ensures
            final(registry).wf(),
            final(registry).same_devices(old(registry)),
            final(registry).same_sessions(old(registry)),
            final(registry).quotas@.len() == old(registry).quotas@.len(),
            final(self).wf(),
            flows_leased(final(self).flows@, final(registry).quotas@.len()),
            final(self).opening == old(self).opening,
            final(self).ready == old(self).ready,
            final(self).refills_in_flight == old(self).refills_in_flight,
            final(self).failed_at == old(self).failed_at,
            final(self).failure == old(self).failure,
            final(self).served == old(self).served,
            final(self).datagrams == old(self).datagrams,
            final(self).recv_backoff_ms == old(self).recv_backoff_ms,
            udp_state(*final(registry), final(self).flows@, r@) == swept(
                udp_state(*old(registry), old(self).flows@, Seq::empty()),
                old(self).flows@.len() as int,
                now,
            ),
    {
        let mut ended: Vec<ClientAddr> = Vec::new();
        let mut n: usize = self.flows.len();
        let ghost start = udp_state(*registry, self.flows@, ended@);
        proof {
            assert(ended@ =~= Seq::<ClientAddr>::empty());
        }
        while n > 0
            invariant
                n <= self.flows@.len(),
                registry.wf(),
                registry.same_devices(old(registry)),
                registry.same_sessions(old(registry)),
                registry.quotas@.len() == old(registry).quotas@.len(),
                flows_unique(self.flows@),
                flows_leased(self.flows@, registry.quotas@.len()),
                old(self).wf(),
                openings_apart(self.flows@, self.opening@),
                self.opening == old(self).opening,
                self.ready == old(self).ready,
                self.refills_in_flight == old(self).refills_in_flight,
                self.failed_at == old(self).failed_at,
                self.failure == old(self).failure,
                self.served == old(self).served,
                self.datagrams == old(self).datagrams,
                self.recv_backoff_ms == old(self).recv_backoff_ms,
                start == udp_state(*old(registry), old(self).flows@, Seq::empty()),
                swept(start, old(self).flows@.len() as int, now) == swept(
                    udp_state(*registry, self.flows@, ended@),
                    n as int,
                    now,
                ),
            decreases n,
        {
            let flow = self.flows[n - 1];
            let over = flow.cancelled || flow.finished || (now as i128) - (flow.last_seen as i128)
                > UDP_FLOW_IDLE_MS as i128;
            if over {
                proof {
                    lemma_removal_keeps_apart(self.flows@, n - 1, self.opening@);
                }
                end_flow(registry, &mut self.flows, &mut ended, n - 1);
            }
            n = n - 1;
        }
        ended
    }
}

/// Admitting a flow, or refusing it, gives no client a flow that had none.
proof fn lemma_wish_keeps_absent(
    s: UdpState,
    device: int,
    memory: Option<u64>,
    client: ClientAddr,
)
    requires
        stage_of(s.limits) is Some,
        no_flow(s.flows, client),
    ensures
        match udp_wish(s, device, memory) {
            UdpWish::Granted(t) => no_flow(t.flows, client),
            UdpWish::Refused(t) => no_flow(t.flows, client),
        },
    decreases
            s.flows.len(),
            3 - stage_of(s.limits)->0,
{
    let next = raised_limits(s.limits, memory);
    match udp_verdict(s.quotas, s.admission.udp_active, device, s.limits.1) {
        Some(AdmissionError::GlobalLimit) => {
            if next != s.limits && stage_of(next) is Some && stage_of(next)->0 > stage_of(
                s.limits,
            )->0 {
                lemma_wish_keeps_absent(UdpState { limits: next, ..s }, device, memory, client);
            } else {
                match oldest_flow(s.flows) {
                    None => {},
                    Some(i) => {
                        if 0 <= i < s.flows.len() {
                            lemma_removal_keeps_absent(s.flows, i, client);
                            lemma_wish_keeps_absent(flow_ended(s, i), device, memory, client);
                        }
                    },
                }
            }
        },
        _ => {},
    }
}

proof fn lemma_removal_keeps_absent(flows: Seq<UdpFlow>, at: int, client: ClientAddr)
    requires
        0 <= at < flows.len(),
        no_flow(flows, client),
    ensures
        no_flow(flows.remove(at), client),
{
    let after = flows.remove(at);
    assert forall|k: int| 0 <= k < after.len() implies (#[trigger] after[k]).client != client by {
        if k < at {
            assert(after[k] == flows[k]);
        } else {
            assert(after[k] == flows[k + 1]);
        }
    }
}

proof fn lemma_removal_is_absent(flows: Seq<UdpFlow>, at: int)
    requires
        0 <= at < flows.len(),
        flows_unique(flows),
    ensures
        no_flow(flows.remove(at), flows[at].client),
{
    let after = flows.remove(at);
    assert forall|k: int| 0 <= k < after.len() implies (#[trigger] after[k]).client
        != flows[at].client by {
        if k < at {
            assert(flows[k].client != flows[at].client);
        } else {
            assert(flows[at].client != flows[k + 1].client);
        }
    }
}

/// Admission keeps clients that wait without a flow.
proof fn lemma_wish_keeps_apart(
    s: UdpState,
    device: int,
    memory: Option<u64>,
    opening: Seq<OpeningQueue>,
)
    requires
        stage_of(s.limits) is Some,
        openings_apart(s.flows, opening),
    ensures
        match udp_wish(s, device, memory) {
            UdpWish::Granted(t) => openings_apart(t.flows, opening),
            UdpWish::Refused(t) => openings_apart(t.flows, opening),
        },
{
    let t = match udp_wish(s, device, memory) {
        UdpWish::Granted(t) => t,
        UdpWish::Refused(t) => t,
    };
    assert forall|i: int| 0 <= i < opening.len() implies no_flow(
        t.flows,
        (#[trigger] opening[i]).client,
    ) by {
        lemma_wish_keeps_absent(s, device, memory, opening[i].client);
    }
}

proof fn lemma_removal_keeps_apart(flows: Seq<UdpFlow>, at: int, opening: Seq<OpeningQueue>)
    requires
        0 <= at < flows.len(),
        openings_apart(flows, opening),
    ensures
        openings_apart(flows.remove(at), opening),
{
    assert forall|i: int| 0 <= i < opening.len() implies no_flow(
        flows.remove(at),
        (#[trigger] opening[i]).client,
    ) by {
        lemma_removal_keeps_absent(flows, at, opening[i].client);
    }
}

/// A change that keeps every flow's client keeps clients that wait without a flow.
proof fn lemma_update_keeps_apart(
    flows: Seq<UdpFlow>,
    at: int,
    flow: UdpFlow,
    opening: Seq<OpeningQueue>,
)
    requires
        0 <= at < flows.len(),
        flow.client == flows[at].client,
        openings_apart(flows, opening),
        flows_unique(flows),
    ensures
        openings_apart(flows.update(at, flow), opening),
        flows_unique(flows.update(at, flow)),
{
    let after = flows.update(at, flow);
    assert forall|i: int| 0 <= i < opening.len() implies no_flow(
        after,
        (#[trigger] opening[i]).client,
    ) by {
        assert(no_flow(flows, opening[i].client));
        assert forall|k: int| 0 <= k < after.len() implies (#[trigger] after[k]).client
            != opening[i].client by {
            assert(flows[k].client != opening[i].client);
        }
    }
    assert forall|a: int, b: int|
        #![trigger after[a], after[b]]
        0 <= a < b < after.len() implies after[a].client != after[b].client by {
        assert(flows[a].client != flows[b].client);
    }
}

/// A new flow of a client that neither waits nor has a flow keeps all apart.
proof fn lemma_push_keeps_apart(
    flows: Seq<UdpFlow>,
    flow: UdpFlow,
    opening: Seq<OpeningQueue>,
    devices: nat,
)
    requires
        openings_apart(flows, opening),
        flows_unique(flows),
        flows_leased(flows, devices),
        flow.lease.device < devices,
        no_flow(flows, flow.client),
        forall|i: int| 0 <= i < opening.len() ==> (#[trigger] opening[i]).client != flow.client,
    ensures
        openings_apart(flows.push(flow), opening),
        flows_unique(flows.push(flow)),
        flows_leased(flows.push(flow), devices),
{
    let after = flows.push(flow);
    assert forall|i: int| 0 <= i < opening.len() implies no_flow(
        after,
        (#[trigger] opening[i]).client,
    ) by {
        assert(no_flow(flows, opening[i].client));
        assert forall|k: int| 0 <= k < after.len() implies (#[trigger] after[k]).client
            != opening[i].client by {
            if k < flows.len() {
                assert(flows[k].client != opening[i].client);
            }
        }
    }
    assert forall|a: int, b: int|
        #![trigger after[a], after[b]]
        0 <= a < b < after.len() implies after[a].client != after[b].client by {
        assert(flows[a].client != flow.client);
        if b < flows.len() {
            assert(flows[a].client != flows[b].client);
        }
    }
    assert forall|a: int| 0 <= a < after.len() implies (#[trigger] after[a]).lease.device
        < devices by {
        if a < flows.len() {
            assert(flows[a].lease.device < devices);
        }
    }
}

/// Whether a response needs a large buffer: it is longer than a normal one, or its length
/// is not known.
pub fn needs_jumbo_buffer(next_length: Option<usize>) -> (r: bool)
    ensures
        r == match next_length {
            Some(n) => n > PROXY_NORMAL_BUFFER_BYTES,
            None => true,
        },
{
    match next_length {
        Some(n) => n > PROXY_NORMAL_BUFFER_BYTES,
        None => true,
    }
}

/// The flow of a client is the one that has its address.
pub proof fn law_flow_of_a_client(flows: Seq<UdpFlow>, client: ClientAddr, i: int)
    requires
        flows_unique(flows),
    ensures
        0 <= i < flows.len() && flows[i].client == client ==> flow_at(flows, client) == Some(i),
        (forall|j: int| 0 <= j < flows.len() ==> (#[trigger] flows[j]).client != client)
            ==> flow_at(flows, client) is None,
{
    lemma_flow_at(flows, client);
    if let Some(k) = flow_at(flows, client) {
        if 0 <= i < flows.len() && flows[i].client == client {
            if i < k {
                assert(flows[i].client != flows[k].client);
            }
            if k < i {
                assert(flows[k].client != flows[i].client);
            }
        }
    }
}

/// A flow that ends leaves the list, gives its place back, at its device and in all, and is
/// named; every other flow and device stays as it is.
pub proof fn law_ended_flows_give_their_place_back(s: UdpState, i: int, j: int, other: int)
    requires
        0 <= i < s.flows.len(),
        s.flows[i].lease.device < s.quotas.len(),
        s.quotas[s.flows[i].lease.device as int].udp_active > 0,
        s.admission.udp_active > 0,
    ensures
        ({
            let t = flow_ended(s, i);
            let device = s.flows[i].lease.device as int;
            &&& t.flows.len() == s.flows.len() - 1
            &&& 0 <= j < i ==> t.flows[j] == s.flows[j]
            &&& i <= j < t.flows.len() ==> t.flows[j] == s.flows[j + 1]
            &&& t.quotas[device].udp_active == s.quotas[device].udp_active - 1
            &&& t.quotas[device].tcp_active == s.quotas[device].tcp_active
            &&& 0 <= other < s.quotas.len() && other != device ==> t.quotas[other]
                == s.quotas[other]
            &&& t.admission.udp_active == s.admission.udp_active - 1
            &&& t.admission.tcp_active == s.admission.tcp_active
            &&& t.limits == s.limits
            &&& t.ended.drop_last() == s.ended
            &&& t.ended.last() == s.flows[i].client
        }),
{
    assert(s.ended.push(s.flows[i].client).drop_last() =~= s.ended);
}

/// A flow that starts is the newest of the list, for its client and its device, seen now and
/// alive, and counted; without a device nothing starts and nothing changes.
pub proof fn law_started_flows_are_alive(
    s: UdpState,
    device: Option<int>,
    client: ClientAddr,
    now: i64,
    memory: Option<u64>,
)
    ensures
        device is None ==> flow_started(s, device, client, now, memory) == (s, false),
        flow_started(s, device, client, now, memory).1 && 0 <= device->0 <= usize::MAX ==> {
            let f = flow_started(s, device, client, now, memory).0.flows.last();
            &&& f.client == client
            &&& f.last_seen == now
            &&& !f.finished
            &&& !f.cancelled
            &&& f.lease.device == device->0
        },
{
}

/// Where the limit does not stand in the way, starting a flow ends no other.
pub proof fn law_flows_start_without_harm(
    s: UdpState,
    device: int,
    client: ClientAddr,
    now: i64,
    memory: Option<u64>,
)
    requires
        stage_of(s.limits) is Some,
        0 <= device < s.quotas.len(),
        s.quotas[device].udp_active < usize::MAX,
        s.admission.udp_active < usize::MAX,
        udp_verdict(s.quotas, s.admission.udp_active, device, s.limits.1) is None,
    ensures
        ({
            let (t, started) = flow_started(s, Some(device), client, now, memory);
            &&& started
            &&& t.flows.drop_last() == s.flows
            &&& t.ended == s.ended
            &&& t.limits == s.limits
            &&& t.quotas[device].udp_active == s.quotas[device].udp_active + 1
            &&& t.admission.udp_active == s.admission.udp_active + 1
        }),
{
    let (t, started) = flow_started(s, Some(device), client, now, memory);
    assert(t.flows.drop_last() =~= s.flows);
}

/// A flow is over once it was cancelled, has finished, or has been silent for more than a
/// minute.
pub proof fn law_silent_flows_are_over(flow: UdpFlow, now: i64)
    ensures
        flow_over(flow, now) <==> flow.cancelled || flow.finished || now > flow.last_seen + 60000,
{
}

/// A sweep ends every flow that is over and no other: what is left is alive, and every flow
/// that was alive is left; whoever lost a flow is named.
pub proof fn law_sweep_ends_what_is_over(s: UdpState, now: i64, i: int, j: int)
    ensures
        ({
            let t = swept(s, s.flows.len() as int, now);
            &&& 0 <= i < s.flows.len() && !flow_over(s.flows[i], now) ==> t.flows.contains(
                s.flows[i],
            )
            &&& 0 <= i < s.flows.len() && flow_over(s.flows[i], now) ==> t.ended.contains(
                s.flows[i].client,
            )
            &&& 0 <= j < t.flows.len() ==> !flow_over(t.flows[j], now) && s.flows.contains(
                t.flows[j],
            )
            &&& t.limits == s.limits
        }),
{
    lemma_swept(s, s.flows.len() as int, now);
    let t = swept(s, s.flows.len() as int, now);
    if 0 <= j < t.flows.len() {
        assert(t.flows.contains(t.flows[j]));
        if flow_over(t.flows[j], now) {
            let k = choose|k: int|
                s.flows.len() <= k < s.flows.len() && #[trigger] s.flows[k] == t.flows[j];
        }
    }
}

proof fn lemma_swept(s: UdpState, n: int, now: i64)
    requires
        0 <= n <= s.flows.len(),
    ensures
        ({
            let t = swept(s, n, now);
            &&& forall|f: UdpFlow| #[trigger] t.flows.contains(f) ==> s.flows.contains(f)
            &&& forall|k: int|
                n <= k < s.flows.len() ==> t.flows.contains(#[trigger] s.flows[k])
            &&& forall|k: int|
                0 <= k < n && !flow_over(#[trigger] s.flows[k], now) ==> t.flows.contains(
                    s.flows[k],
                )
            &&& forall|k: int|
                0 <= k < n && flow_over(#[trigger] s.flows[k], now) ==> t.ended.contains(
                    s.flows[k].client,
                )
            &&& forall|f: UdpFlow|
                #[trigger] t.flows.contains(f) && flow_over(f, now) ==> exists|k: int|
                    n <= k < s.flows.len() && #[trigger] s.flows[k] == f
            &&& forall|c: ClientAddr| s.ended.contains(c) ==> #[trigger] t.ended.contains(c)
            &&& t.limits == s.limits
        }),
    decreases n,
{
    if n > 0 {
        let last = s.flows[n - 1];
        if flow_over(last, now) {
            let e = flow_ended(s, n - 1);
            lemma_swept(e, n - 1, now);
            let t = swept(s, n, now);
            assert(t == swept(e, n - 1, now));
            assert(e.flows == s.flows.remove(n - 1));
            assert forall|f: UdpFlow| #[trigger] t.flows.contains(f) implies s.flows.contains(
                f,
            ) by {
                assert(e.flows.contains(f));
                let k = choose|k: int| 0 <= k < e.flows.len() && e.flows[k] == f;
                if k < n - 1 {
                    assert(s.flows[k] == f);
                } else {
                    assert(s.flows[k + 1] == f);
                }
            }
            assert forall|k: int| n <= k < s.flows.len() implies t.flows.contains(
                #[trigger] s.flows[k],
            ) by {
                assert(e.flows[k - 1] == s.flows[k]);
            }
            assert forall|k: int|
                0 <= k < n && !flow_over(#[trigger] s.flows[k], now) implies t.flows.contains(
                s.flows[k],
            ) by {
                assert(e.flows[k] == s.flows[k]);
            }
            assert forall|c: ClientAddr| s.ended.contains(c) implies #[trigger] t.ended.contains(
                c,
            ) by {
                let k = choose|k: int| 0 <= k < s.ended.len() && s.ended[k] == c;
                assert(e.ended[k] == c);
                assert(e.ended.contains(c));
            }
            assert forall|k: int|
                0 <= k < n && flow_over(#[trigger] s.flows[k], now) implies t.ended.contains(
                s.flows[k].client,
            ) by {
                if k < n - 1 {
                    assert(e.flows[k] == s.flows[k]);
                } else {
                    assert(e.ended[e.ended.len() - 1] == last.client);
                    assert(e.ended.contains(last.client));
                }
            }
            assert forall|f: UdpFlow|
                #[trigger] t.flows.contains(f) && flow_over(f, now) implies exists|k: int|
                n <= k < s.flows.len() && #[trigger] s.flows[k] == f by {
                let k = choose|k: int|
                    n - 1 <= k < e.flows.len() && #[trigger] e.flows[k] == f;
                assert(s.flows[k + 1] == f);
            }
        } else {
            lemma_swept(s, n - 1, now);
            let t = swept(s, n, now);
            assert forall|f: UdpFlow|
                #[trigger] t.flows.contains(f) && flow_over(f, now) implies exists|k: int|
                n <= k < s.flows.len() && #[trigger] s.flows[k] == f by {
                let k = choose|k: int|
                    n - 1 <= k < s.flows.len() && #[trigger] s.flows[k] == f;
                if k == n - 1 {
                    assert(s.flows[k] == last);
                }
            }
        }
    } else {
        assert forall|k: int| n <= k < s.flows.len() implies s.flows.contains(
            #[trigger] s.flows[k],
        ) by {}
        assert forall|f: UdpFlow|
            #[trigger] s.flows.contains(f) && flow_over(f, now) implies exists|k: int|
            n <= k < s.flows.len() && #[trigger] s.flows[k] == f by {
            let k = choose|k: int| 0 <= k < s.flows.len() && s.flows[k] == f;
            assert(s.flows[k] == f);
        }
    }
}

/// Relays are asked for until four are ready or on their way; after a failure none is set up
/// for two seconds; and the pause after a receive error doubles from two to fifty
/// milliseconds.
pub proof fn law_relays_are_kept_ready(
    ready: usize,
    in_flight: usize,
    failed: i64,
    now: i64,
    ms: u64,
)
    ensures
        ready + in_flight <= 4 ==> ready + in_flight + refills_wanted(ready, in_flight) == 4,
        ready + in_flight > 4 ==> refills_wanted(ready, in_flight) == 0,
        backing_off(Some(failed), now) <==> now < failed + 2000,
        !backing_off(None, now),
        pause_after(0) == 2,
        1 <= ms < 25 ==> pause_after(ms) == 2 * ms,
        ms >= 25 ==> pause_after(ms) == 50,
{
}

/// A datagram of a client with a living flow is forwarded: the flow was seen now, and that
/// is all that changes.
pub proof fn law_living_flows_take_datagrams(
    before: UdpEngine,
    registry: DeviceQuotaRegistry,
    after: UdpEngine,
    after_registry: DeviceQuotaRegistry,
    client: ClientAddr,
    now: i64,
    memory: Option<u64>,
    r: DatagramOutcome,
    i: int,
)
    requires
        flows_unique(before.flows@),
        datagram_taken(before, registry, after, after_registry, client, now, memory, r),
        0 <= i < before.flows@.len(),
        before.flows@[i].client == client,
        !before.flows@[i].finished,
    ensures
        r.step == DatagramStep::Forward,
        r.ended@.len() == 0,
        r.refills == 0,
        after.flows@.len() == before.flows@.len(),
        after.flows@[i].last_seen == now,
        after.flows@[i].client == client,
        forall|j: int|
            0 <= j < before.flows@.len() && j != i ==> #[trigger] after.flows@[j]
                == before.flows@[j],
        after.opening@ == before.opening@,
        after.ready == before.ready,
        after.served == before.served,
        after_registry.quotas@ == registry.quotas@,
        after_registry.admission == registry.admission,
{
    law_flow_of_a_client(before.flows@, client, i);
    let s = udp_state(registry, before.flows@, Seq::empty());
    let t = udp_state(after_registry, after.flows@, r.ended@);
    assert(t.flows == after.flows@ && t.ended == r.ended@ && t.quotas == after_registry.quotas@);
    assert(s.ended.len() == 0);
}

/// A datagram of a client without a living flow: it waits where a relay is being set up for
/// the client; it is dropped while relays fail or too many are being set up; it has a relay
/// set up where none is ready; else it takes a ready one, if the limits allow a flow.
pub proof fn law_new_clients_get_a_relay(
    before: UdpEngine,
    registry: DeviceQuotaRegistry,
    after: UdpEngine,
    after_registry: DeviceQuotaRegistry,
    client: ClientAddr,
    now: i64,
    memory: Option<u64>,
    r: DatagramOutcome,
)
    requires
        before.wf(),
        datagram_taken(before, registry, after, after_registry, client, now, memory, r),
        forall|j: int|
            0 <= j < before.flows@.len() ==> (#[trigger] before.flows@[j]).client != client,
    ensures
        opening_at(before.opening@, client) is Some ==> r.step == DatagramStep::Queue
            && after.opening@ == before.opening@ && after.ready == before.ready,
        opening_at(before.opening@, client) is None && backing_off(before.failed_at, now) ==> r.step
            == DatagramStep::Drop && after.failed_at == before.failed_at,
        opening_at(before.opening@, client) is None && before.opening@.len() >= 64 ==> r.step
            == DatagramStep::Drop,
        opening_at(before.opening@, client) is None && !backing_off(before.failed_at, now)
            && before.opening@.len() < 64 && before.ready == 0 ==> r.step
            == DatagramStep::StartOpening && after.opening@.len() == before.opening@.len() + 1
            && after.opening@.last().client == client && after.opening@.drop_last()
            == before.opening@ && after.failed_at is None,
        opening_at(before.opening@, client) is None && !backing_off(before.failed_at, now)
            && before.opening@.len() < 64 && before.ready > 0 ==> {
            &&& r.step == DatagramStep::Open || r.step == DatagramStep::Refuse
            &&& after.ready == before.ready - 1
            &&& after.opening@ == before.opening@
        },
        r.step == DatagramStep::Open ==> after.served == next_count(before.served)
            && after.flows@.last().client == client && after.flows@.last().last_seen == now
            && !after.flows@.last().finished,
        r.step != DatagramStep::Open ==> after.served == before.served,
        r.step == DatagramStep::Queue || r.step == DatagramStep::Drop || r.step
            == DatagramStep::StartOpening ==> after.flows@ == before.flows@ && r.ended@.len() == 0,
        r.step == DatagramStep::Refuse && device_for(registry, client.ip) is None ==> after.flows@
            == before.flows@,
        r.step == DatagramStep::Open ==> device_for(registry, client.ip) is Some,
{
    law_flow_of_a_client(before.flows@, client, 0);
    let s = udp_state(registry, before.flows@, Seq::empty());
    let t = udp_state(after_registry, after.flows@, r.ended@);
    assert(t.flows == after.flows@ && t.ended == r.ended@);
    assert(s.flows == before.flows@ && s.ended.len() == 0);
}

/// A device is the one that the address belongs to, unless it was cancelled.
pub proof fn law_device_for_an_address(registry: DeviceQuotaRegistry, ip: Ipv4)
    ensures
        device_for(registry, ip) matches Some(i) ==> registry.index_of(ip) == Some(i as nat)
            && !registry.quotas@[i].cancelled,
        registry.index_of(ip) matches Some(i) ==> (!registry.quotas@[i as int].cancelled
            ==> device_for(registry, ip) == Some(i as int)) && (
        registry.quotas@[i as int].cancelled ==> device_for(registry, ip) is None),
        registry.index_of(ip) is None ==> device_for(registry, ip) is None,
{
}

/// What the end of an attempt to set up a relay does.
pub open spec fn pool_answered(
    before: UdpEngine,
    after: UdpEngine,
    ok: bool,
    r: (bool, usize),
) -> bool {
    let keep = ok && before.ready < ASSOCIATION_POOL_TARGET;
    let ready = (before.ready + (if keep {
        1int
    } else {
        0int
    })) as usize;
    let left = one_less(before.refills_in_flight);
    &&& r.0 == keep
    &&& r.1 == refills_wanted(ready, left)
    &&& after == (UdpEngine { ready, refills_in_flight: (left + r.1) as usize, ..before })
}

/// A relay that was set up is kept while fewer than four are ready; afterwards four are ready
/// or on their way, and nothing else has changed.
pub proof fn law_four_relays_are_ready_or_coming(
    before: UdpEngine,
    after: UdpEngine,
    ok: bool,
    r: (bool, usize),
)
    requires
        before.wf(),
        0 < before.refills_in_flight,
        before.ready + before.refills_in_flight <= 4,
        pool_answered(before, after, ok, r),
    ensures
        after.ready + after.refills_in_flight == 4,
        ok ==> r.0 && after.ready == before.ready + 1,
        !ok ==> !r.0 && after.ready == before.ready,
        after.flows == before.flows && after.opening == before.opening && after.served
            == before.served,
{
}

/// The opening of a client is the one that has its address.
pub proof fn law_opening_of_a_client(opening: Seq<OpeningQueue>, client: ClientAddr, i: int)
    ensures
        0 <= i < opening.len() && opening[i].client == client && (forall|j: int|
            i < j < opening.len() ==> (#[trigger] opening[j]).client != client) ==> opening_at(
            opening,
            client,
        ) == Some(i),
        (forall|j: int| 0 <= j < opening.len() ==> (#[trigger] opening[j]).client != client)
            ==> opening_at(opening, client) is None,
    decreases opening.len(),
{
    if opening.len() > 0 {
        let d = opening.drop_last();
        law_opening_of_a_client(d, client, i);
        assert(opening.last() == opening[opening.len() - 1]);
        if 0 <= i < d.len() {
            assert(d[i] == opening[i]);
        }
    }
}

/// Of flows that were silent equally long the first one is the oldest.
pub proof fn law_first_of_the_oldest_flows(flows: Seq<UdpFlow>, i: int)
    requires
        0 <= i < flows.len(),
        forall|j: int|
            0 <= j < flows.len() ==> flows[i].last_seen <= (#[trigger] flows[j]).last_seen,
        forall|j: int| 0 <= j < i ==> flows[i].last_seen < (#[trigger] flows[j]).last_seen,
    ensures
        oldest_flow(flows) == Some(i),
    decreases flows.len(),
{
    let d = flows.drop_last();
    assert(forall|j: int| 0 <= j < d.len() ==> d[j] == flows[j]);
    assert(flows.last() == flows[flows.len() - 1]);
    if i < d.len() {
        assert(d[i] == flows[i]);
        law_first_of_the_oldest_flows(d, i);
    } else if d.len() > 0 {
        lemma_oldest_flow(d);
    }
}

} // verus!
