//! The packet dispatcher: workers, return queues and the carriers of proxied streams.
use vstd::prelude::*;
use crate::client::packet_queue::{
    PacketQueue, QueuedPacket, RecvPoll, force_pushed, law_fifo_within_epoch,
    law_forced_send_keeps_newest, packet_channel, skip_stale,
};
use crate::client::stream_proxy::{frame_route, is_frame, magic};
use crate::client::workers::{
    WorkerChannels, interleave_turn_paths, interleaved, path_rank, turn_before, unique_workers,
};
use crate::octets::copy_bytes;
use crate::frame::{CLOSE, Frame, OPEN, frame_bytes, frame_shaped, law_frame_round_trip};
use crate::packet::PacketClass;
use vstd::multiset::Multiset;

verus! {

/// Room for packets on their way back, all classes together.
pub const RETURN_CAPACITY: usize = 1024;

/// Room for returned packets of the latency class.
pub const RETURN_LATENCY_CAPACITY: usize = 128;

/// Room for returned packets of the priority class.
pub const RETURN_PRIORITY_CAPACITY: usize = 384;

/// Room for returned packets of the bulk class: what the others leave.
pub const RETURN_BULK_CAPACITY: usize = 512;

/// The workers after one was registered: it takes the place of an earlier incarnation.
pub open spec fn registered(workers: Multiset<WorkerChannels>, new: WorkerChannels) -> Multiset<
    WorkerChannels,
> {
    workers.filter(|w: WorkerChannels| w.id != new.id).insert(new)
}

/// The workers after exactly one incarnation of a worker was removed.
pub open spec fn unregistered(
    workers: Multiset<WorkerChannels>,
    id: usize,
    incarnation_id: u64,
) -> Multiset<WorkerChannels> {
    workers.filter(|w: WorkerChannels| !(w.id == id && w.incarnation_id == incarnation_id))
}

/// Removing a worker and registering it anew leaves every other worker as it was.
pub proof fn law_recovery_keeps_siblings(
    workers: Multiset<WorkerChannels>,
    incarnation_id: u64,
    new: WorkerChannels,
    sibling: WorkerChannels,
)
    requires
        sibling.id != new.id,
    ensures
        unregistered(workers, new.id, incarnation_id).count(sibling) == workers.count(sibling),
        registered(unregistered(workers, new.id, incarnation_id), new).count(sibling)
            == workers.count(sibling),
{
    broadcast use vstd::multiset::group_multiset_axioms;

}

/// The end of an earlier incarnation does not remove the worker that took its place.
pub proof fn law_stale_registration_keeps_replacement(
    workers: Multiset<WorkerChannels>,
    new: WorkerChannels,
    stale: u64,
)
    requires
        stale != new.incarnation_id,
    ensures
        unregistered(registered(workers, new), new.id, stale) == registered(workers, new),
{
    broadcast use vstd::multiset::group_multiset_axioms;

    assert(unregistered(registered(workers, new), new.id, stale) =~= registered(workers, new));
}

/// A worker is registered at most once.
pub proof fn law_registered_once(workers: Multiset<WorkerChannels>, new: WorkerChannels)
    ensures
        forall|w: WorkerChannels| #[trigger]
            registered(workers, new).count(w) > 0 && w.id == new.id ==> w == new,
        registered(workers, new).count(new) == 1,
{
    broadcast use vstd::multiset::group_multiset_axioms;

}

/// A worker that was removed is gone, and nobody else is.
pub proof fn law_unregistered_is_gone(
    workers: Multiset<WorkerChannels>,
    w: WorkerChannels,
    id: usize,
    incarnation_id: u64,
)
    ensures
        w.id == id && w.incarnation_id == incarnation_id ==> unregistered(
            workers,
            id,
            incarnation_id,
        ).count(w) == 0,
        w.id != id || w.incarnation_id != incarnation_id ==> unregistered(
            workers,
            id,
            incarnation_id,
        ).count(w) == workers.count(w),
{
    broadcast use vstd::multiset::group_multiset_axioms;

}

/// The worker that carries a proxied stream.
#[derive(Clone, Copy, Debug, PartialEq, Eq, Structural)]
pub struct StreamRoute {
    pub stream_id: u64,
    pub worker_id: usize,
    pub incarnation_id: u64,
}

/// The carrier of a stream: worker number and incarnation.
pub open spec fn route_of(routes: Seq<StreamRoute>, stream_id: u64) -> Option<(usize, u64)>
    decreases routes.len(),
{
    if routes.len() == 0 {
        None
    } else if routes.last().stream_id == stream_id {
        Some((routes.last().worker_id, routes.last().incarnation_id))
    } else {
        route_of(routes.drop_last(), stream_id)
    }
}

/// The carriers of the proxied streams.
pub struct ProxyRoutes {
    routes: Vec<StreamRoute>,
}

proof fn lemma_route_of_index(routes: Seq<StreamRoute>, i: int)
    requires
        0 <= i < routes.len(),
        forall|a: int, b: int|
            0 <= a < b < routes.len() ==> (#[trigger] routes[a]).stream_id != (
            #[trigger] routes[b]).stream_id,
    ensures
        route_of(routes, routes[i].stream_id) == Some(
            (routes[i].worker_id, routes[i].incarnation_id),
        ),
    decreases routes.len(),
{
    if i < routes.len() - 1 {
        assert(routes[i].stream_id != routes[routes.len() - 1].stream_id);
        lemma_route_of_index(routes.drop_last(), i);
    }
}

proof fn lemma_route_of_none(routes: Seq<StreamRoute>, stream_id: u64)
    requires
        forall|i: int| 0 <= i < routes.len() ==> (#[trigger] routes[i]).stream_id != stream_id,
    ensures
        route_of(routes, stream_id) is None,
    decreases routes.len(),
{
    if routes.len() > 0 {
        assert(routes[routes.len() - 1].stream_id != stream_id);
        lemma_route_of_none(routes.drop_last(), stream_id);
    }
}

impl ProxyRoutes {
    /// The carrier of a stream.
    pub closed spec fn carrier(&self, stream_id: u64) -> Option<(usize, u64)> {
        route_of(self.routes@, stream_id)
    }

    /// No stream has two carriers.
    pub closed spec fn wf(&self) -> bool {
        forall|a: int, b: int|
            0 <= a < b < self.routes@.len() ==> (#[trigger] self.routes@[a]).stream_id != (
            #[trigger] self.routes@[b]).stream_id
    }

    /// No carriers.
    pub fn new() -> (r: Self)
        ensures
            r.wf(),
            forall|s: u64| #[trigger] r.carrier(s) is None,
    {
        ProxyRoutes { routes: Vec::new() }
    }

    /// The carrier of a stream.
    pub fn get(&self, stream_id: u64) -> (r: Option<(usize, u64)>)
        requires
            self.wf(),
        ensures
            r == self.carrier(stream_id),
    {
        let mut i: usize = 0;
        while i < self.routes.len()
            invariant
                i <= self.routes@.len(),
                self.wf(),
                forall|j: int| 0 <= j < i ==> (#[trigger] self.routes@[j]).stream_id != stream_id,
            decreases self.routes@.len() - i,
        {
            if self.routes[i].stream_id == stream_id {
                proof {
                    lemma_route_of_index(self.routes@, i as int);
                }
                return Some((self.routes[i].worker_id, self.routes[i].incarnation_id));
            }
            i = i + 1;
        }
        proof {
            lemma_route_of_none(self.routes@, stream_id);
        }
        None
    }

    /// Keeps the routes that satisfy neither of: being the stream `stream`, being
    /// carried by `carrier`.
    fn keep(&mut self, stream: Option<u64>, carrier: Option<(usize, u64)>)
        requires
            old(self).wf(),
        ensures
            final(self).wf(),
            forall|s: u64| #[trigger]
                final(self).carrier(s) == if stream == Some(s) || (old(self).carrier(s) is Some
                    && old(self).carrier(s) == carrier) {
                    None
                } else {
                    old(self).carrier(s)
                },
    {
        let ghost all = self.routes@;
        let mut kept: Vec<StreamRoute> = Vec::new();
        let mut i: usize = 0;
        while i < self.routes.len()
            invariant
                i <= all.len(),
                self.routes@ == all,
                forall|a: int, b: int|
                    0 <= a < b < all.len() ==> (#[trigger] all[a]).stream_id != (
                    #[trigger] all[b]).stream_id,
                forall|a: int, b: int|
                    0 <= a < b < kept@.len() ==> (#[trigger] kept@[a]).stream_id != (
                    #[trigger] kept@[b]).stream_id,
                forall|a: int|
                    0 <= a < kept@.len() ==> exists|k: int|
                        0 <= k < i && #[trigger] all[k] == #[trigger] kept@[a],
                forall|s: u64| #[trigger]
                    route_of(kept@, s) == {
                        let o = route_of(all.take(i as int), s);
                        if stream == Some(s) || (o is Some && o == carrier) {
                            None
                        } else {
                            o
                        }
                    },
            decreases all.len() - i,
        {
            let route = self.routes[i];
            let drop_stream = match stream {
                Some(s) => s == route.stream_id,
                None => false,
            };
            let drop_carrier = match carrier {
                Some((w, n)) => w == route.worker_id && n == route.incarnation_id,
                None => false,
            };
            let ghost before = kept@;
            proof {
                assert(all.take(i as int + 1).drop_last() =~= all.take(i as int));
                assert(all.take(i as int + 1).last() == route);
                let t = all.take(i as int);
                assert forall|k: int| 0 <= k < t.len() implies (#[trigger] t[k]).stream_id
                    != route.stream_id by {
                    assert(all[k].stream_id != all[i as int].stream_id);
                }
                lemma_route_of_none(t, route.stream_id);
            }
            if !drop_stream && !drop_carrier {
                kept.push(route);
                proof {
                    assert(kept@.drop_last() =~= before);
                    assert forall|a: int, b: int| 0 <= a < b < kept@.len() implies (
                    #[trigger] kept@[a]).stream_id != (#[trigger] kept@[b]).stream_id by {
                        if b == before.len() {
                            assert(before[a] == kept@[a]);
                            let k = choose|k: int|
                                0 <= k < i && #[trigger] all[k] == #[trigger] before[a];
                            assert(all[k].stream_id != all[i as int].stream_id);
                        }
                    }
                    assert forall|a: int| 0 <= a < kept@.len() implies exists|k: int|
                        0 <= k < i + 1 && #[trigger] all[k] == #[trigger] kept@[a] by {
                        if a < before.len() {
                            let k = choose|k: int|
                                0 <= k < i && #[trigger] all[k] == #[trigger] before[a];
                            assert(all[k] == kept@[a]);
                        } else {
                            assert(all[i as int] == kept@[a]);
                        }
                    }
                }
            }
            proof {
                assert forall|s: u64| #[trigger] route_of(kept@, s) == {
                    let o = route_of(all.take(i as int + 1), s);
                    if stream == Some(s) || (o is Some && o == carrier) {
                        None
                    } else {
                        o
                    }
                } by {
                    assert(route_of(before, s) == {
                        let o = route_of(all.take(i as int), s);
                        if stream == Some(s) || (o is Some && o == carrier) {
                            None
                        } else {
                            o
                        }
                    });
                }
            }
            i = i + 1;
        }
        proof {
            assert(all.take(i as int) =~= all);
        }
        self.routes = kept;
    }

    /// Forgets the carrier of a stream.
    pub fn remove(&mut self, stream_id: u64)
        requires
            old(self).wf(),
        ensures
            final(self).wf(),
            forall|s: u64| #[trigger]
                final(self).carrier(s) == if s == stream_id {
                    None
                } else {
                    old(self).carrier(s)
                },
    {
        self.keep(Some(stream_id), None);
    }

    /// Forgets every stream that one incarnation of a worker carries.
    pub fn remove_carrier(&mut self, worker_id: usize, incarnation_id: u64)
        requires
            old(self).wf(),
        ensures
            final(self).wf(),
            forall|s: u64| #[trigger]
                final(self).carrier(s) == if old(self).carrier(s) == Some(
                    (worker_id, incarnation_id),
                ) {
                    None
                } else {
                    old(self).carrier(s)
                },
    {
        self.keep(None, Some((worker_id, incarnation_id)));
    }

    /// Makes a worker the carrier of a stream.
    pub fn insert(&mut self, stream_id: u64, worker_id: usize, incarnation_id: u64)
        requires
            old(self).wf(),
        ensures
            final(self).wf(),
            forall|s: u64| #[trigger]
                final(self).carrier(s) == if s == stream_id {
                    Some((worker_id, incarnation_id))
                } else {
                    old(self).carrier(s)
                },
    {
        self.remove(stream_id);
        let ghost before = self.routes@;
        proof {
            assert(self.carrier(stream_id) is None);
            assert forall|s: u64| s != stream_id implies #[trigger] route_of(before, s) == old(self).carrier(s) by {
                assert(self.carrier(s) == old(self).carrier(s));
            }
            assert forall|a: int| 0 <= a < before.len() implies (#[trigger] before[a]).stream_id
                != stream_id by {
                lemma_route_of_index(before, a);
            }
        }
        self.routes.push(StreamRoute { stream_id, worker_id, incarnation_id });
        proof {
            assert(self.routes@.drop_last() =~= before);
            assert(self.routes@.last().stream_id == stream_id);
            assert forall|s: u64| #[trigger] self.carrier(s) == if s == stream_id {
                Some((worker_id, incarnation_id))
            } else {
                old(self).carrier(s)
            } by {
                if s != stream_id {
                    assert(route_of(self.routes@, s) == route_of(before, s));
                }
            }
        }
    }
}

/// The queue of a worker for a traffic class.
pub open spec fn class_queue(w: WorkerChannels, class: PacketClass) -> PacketQueue {
    match class {
        PacketClass::Latency => w.latency,
        PacketClass::Priority => w.priority,
        PacketClass::Bulk => w.bulk,
    }
}

/// Whether a queue takes a packet without giving one up.
pub open spec fn has_room(q: PacketQueue) -> bool {
    q.accepts() && q.items().len() < q.capacity()
}

/// Whether `new` is `old` but for the items of one queue, which are `items`.
pub open spec fn only_items_changed(
    old_w: WorkerChannels,
    new_w: WorkerChannels,
    class: PacketClass,
    items: Seq<QueuedPacket>,
) -> bool {
    &&& new_w.id == old_w.id
    &&& new_w.incarnation_id == old_w.incarnation_id
    &&& new_w.turn_path == old_w.turn_path
    &&& class_queue(new_w, class).same_setup(&class_queue(old_w, class))
    &&& class_queue(new_w, class).items() == items
    &&& class != PacketClass::Latency ==> new_w.latency == old_w.latency
    &&& class != PacketClass::Priority ==> new_w.priority == old_w.priority
    &&& class != PacketClass::Bulk ==> new_w.bulk == old_w.bulk
}

/// The workers, the queues for returned packets, and the carriers of streams.
pub struct Dispatcher {
    pub workers: Vec<WorkerChannels>,
    pub return_latency: PacketQueue,
    pub return_priority: PacketQueue,
    pub return_bulk: PacketQueue,
    pub proxy_routes: ProxyRoutes,
    pub proxy_frames: bool,
    pub cancelled: bool,
}

/// Why a proxy frame could not be sent.
#[derive(Clone, Copy, Debug, PartialEq, Eq, Structural)]
pub enum ProxySendError {
    /// The bytes are no frame.
    InvalidFrame,
    /// No worker is registered.
    TransportNotReady,
    /// The stream has no carrier.
    CarrierUnavailable,
    /// The carrier of the stream is no longer registered.
    CarrierReplaced,
    /// No packet buffer is free.
    PoolExhausted,
    /// The carrier's queue did not take the frame.
    QueueUnavailable,
}

impl ProxySendError {
    /// The error in words.
    pub fn message(&self) -> (r: &'static str)
        ensures
            r@ == send_error_words(*self),
    {
        match self {
            ProxySendError::InvalidFrame => "invalid SOCKS5 frame",
            ProxySendError::TransportNotReady => "CSQTT transport is not ready",
            ProxySendError::CarrierUnavailable => "SOCKS5 carrier is unavailable",
            ProxySendError::CarrierReplaced => "SOCKS5 carrier was replaced",
            ProxySendError::PoolExhausted => "packet pool exhausted",
            ProxySendError::QueueUnavailable => "CSQTT transport queue is unavailable",
        }
    }
}

/// What becomes of a returned packet.
#[derive(Debug)]
pub enum ReturnAction {
    /// Hands a frame to the local proxy, and reports back whether it was taken.
    Frame(Vec<u8>),
    /// The packet is a frame, but no proxy is there to take it.
    Ignored,
    /// The packet is on its way to the device.
    Queued,
    /// The queue does not accept packets at present.
    Refused,
}

/// The position of the registered worker with a number and an incarnation.
pub open spec fn is_carrier(w: WorkerChannels, route: (usize, u64)) -> bool {
    w.id == route.0 && w.incarnation_id == route.1
}

proof fn lemma_update_worker(ws: Seq<WorkerChannels>, at: int, w: WorkerChannels)
    requires
        0 <= at < ws.len(),
        unique_workers(ws.to_multiset()),
        interleaved(ws),
        w.id == ws[at].id,
        w.turn_path == ws[at].turn_path,
    ensures
        unique_workers(ws.update(at, w).to_multiset()),
        interleaved(ws.update(at, w)),
{
    broadcast use vstd::multiset::group_multiset_axioms;
    broadcast use vstd::seq_lib::group_to_multiset_ensures;

    let m = ws.to_multiset();
    let us = ws.update(at, w);
    let n = us.to_multiset();
    let o = ws[at];
    vstd::seq_lib::to_multiset_update(ws, at, w);
    assert(n =~= m.insert(w).remove(o));
    assert(ws.contains(o));
    assert(m.count(o) == 1);
    if w != o {
        assert(m.count(w) == 0) by {
            if m.count(w) > 0 {
                assert(m.count(o) > 0 && w.id == o.id);
            }
        }
    }
    assert forall|x: WorkerChannels| #[trigger] path_rank(n, x) == path_rank(m, x) by {
        let p = |v: WorkerChannels| v.turn_path@ == x.turn_path@ && v.id < x.id;
        let fm = m.filter(p);
        let fn_ = n.filter(p);
        if p(o) {
            assert(fn_ =~= fm.insert(w).remove(o));
            assert(fm.insert(w).count(o) > 0);
        } else {
            assert(fn_ =~= fm);
        }
    }
    assert forall|i: int, j: int|
        #![trigger us[i], us[j]]
        0 <= i < j < us.len() implies turn_before(
        path_rank(n, us[i]),
        us[i].turn_path@,
        path_rank(n, us[j]),
        us[j].turn_path@,
    ) by {
        assert(turn_before(
            path_rank(m, ws[i]),
            ws[i].turn_path@,
            path_rank(m, ws[j]),
            ws[j].turn_path@,
        ));
        assert(path_rank(n, us[i]) == path_rank(m, ws[i]));
        assert(path_rank(n, us[j]) == path_rank(m, ws[j]));
    }
    assert forall|a: WorkerChannels, b: WorkerChannels|
        #![trigger n.count(a), n.count(b)]
        n.count(a) > 0 && n.count(b) > 0 && a.id == b.id implies a == b by {
        if a != w && b != w {
            assert(m.count(a) > 0 && m.count(b) > 0);
        } else if a == w && b != w {
            assert(m.count(b) > 0 && m.count(o) > 0);
        } else if b == w && a != w {
            assert(m.count(a) > 0 && m.count(o) > 0);
        }
    }
}

proof fn lemma_unique_index(ws: Seq<WorkerChannels>, i: int, j: int)
    requires
        unique_workers(ws.to_multiset()),
        0 <= i < ws.len(),
        0 <= j < ws.len(),
        ws[i].id == ws[j].id,
    ensures
        i == j,
{
    broadcast use vstd::multiset::group_multiset_axioms;
    broadcast use vstd::seq_lib::group_to_multiset_ensures;

    let m = ws.to_multiset();
    assert(ws.contains(ws[i]) && ws.contains(ws[j]));
    assert(m.count(ws[i]) > 0 && m.count(ws[j]) > 0);
    assert(ws[i] == ws[j]);
    if i != j {
        let a = if i < j {
            i
        } else {
            j
        };
        let b = if i < j {
            j
        } else {
            i
        };
        let r = ws.remove(a);
        assert(r.to_multiset() =~= m.remove(ws[a]));
        assert(r[b - 1] == ws[b]);
        assert(r.contains(ws[b]));
        assert(r.to_multiset().count(ws[b]) > 0);
    }
}

impl Dispatcher {
    /// Every worker once, in round-robin order over the paths; queues in bounds.
    pub open spec fn wf(&self) -> bool {
        &&& forall|i: int| 0 <= i < self.workers@.len() ==> (#[trigger] self.workers@[i]).wf()
        &&& unique_workers(self.workers@.to_multiset())
        &&& interleaved(self.workers@)
        &&& self.return_latency.wf()
        &&& self.return_priority.wf()
        &&& self.return_bulk.wf()
        &&& self.proxy_routes.wf()
    }

    /// Whether everything but the workers and the carriers is as in `other`.
    pub open spec fn same_returns(&self, other: &Dispatcher) -> bool {
        &&& self.return_latency == other.return_latency
        &&& self.return_priority == other.return_priority
        &&& self.return_bulk == other.return_bulk
        &&& self.proxy_frames == other.proxy_frames
        &&& self.cancelled == other.cancelled
    }

    /// A dispatcher without workers. With a tunnel device the return queues stay
    /// suspended until the device is open.
    pub fn new(tun_mode: bool) -> (r: Self)
        ensures
            r.wf(),
            r.workers@.len() == 0,
            r.return_latency.capacity() == RETURN_LATENCY_CAPACITY,
            r.return_priority.capacity() == RETURN_PRIORITY_CAPACITY,
            r.return_bulk.capacity() == RETURN_BULK_CAPACITY,
            r.return_latency.capacity() + r.return_priority.capacity() + r.return_bulk.capacity()
                == RETURN_CAPACITY,
            r.return_latency.items().len() == 0,
            r.return_priority.items().len() == 0,
            r.return_bulk.items().len() == 0,
            r.return_latency.accepts() == !tun_mode,
            r.return_priority.accepts() == !tun_mode,
            r.return_bulk.accepts() == !tun_mode,
            forall|s: u64| #[trigger] r.proxy_routes.carrier(s) is None,
            !r.proxy_frames,
            !r.cancelled,
    {
        let r = Dispatcher {
            workers: Vec::new(),
            return_latency: packet_channel(RETURN_LATENCY_CAPACITY, !tun_mode),
            return_priority: packet_channel(RETURN_PRIORITY_CAPACITY, !tun_mode),
            return_bulk: packet_channel(RETURN_BULK_CAPACITY, !tun_mode),
            proxy_routes: ProxyRoutes::new(),
            proxy_frames: false,
            cancelled: false,
        };
        proof {
            broadcast use vstd::multiset::group_multiset_axioms;
            broadcast use vstd::seq_lib::group_to_multiset_ensures;

            let m = r.workers@.to_multiset();
            assert(m.len() == 0);
            assert forall|a: WorkerChannels| #[trigger] m.count(a) <= 1 by {}
        }
        r
    }

    /// Opens the return queues for a new device.
    pub fn resume_returns(&mut self)
        requires
            old(self).wf(),
        ensures
            final(self).wf(),
            final(self).workers == old(self).workers,
            final(self).proxy_routes == old(self).proxy_routes,
            final(self).proxy_frames == old(self).proxy_frames,
            final(self).cancelled == old(self).cancelled,
            final(self).return_latency.resumed(&old(self).return_latency),
            final(self).return_priority.resumed(&old(self).return_priority),
            final(self).return_bulk.resumed(&old(self).return_bulk),
    {
        self.return_latency.resume();
        self.return_priority.resume();
        self.return_bulk.resume();
    }

    /// Closes the return queues until the next device is open.
    pub fn suspend_returns(&mut self)
        requires
            old(self).wf(),
        ensures
            final(self).wf(),
            final(self).workers == old(self).workers,
            final(self).proxy_routes == old(self).proxy_routes,
            final(self).proxy_frames == old(self).proxy_frames,
            final(self).cancelled == old(self).cancelled,
            final(self).return_latency.suspended(&old(self).return_latency),
            final(self).return_priority.suspended(&old(self).return_priority),
            final(self).return_bulk.suspended(&old(self).return_bulk),
    {
        self.return_latency.suspend();
        self.return_priority.suspend();
        self.return_bulk.suspend();
    }

    /// Removes the workers that `drop_any` or the exact incarnation selects.
    fn remove_worker(&mut self, id: usize, incarnation_id: Option<u64>)
        requires
            old(self).wf(),
        ensures
            final(self).same_returns(old(self)),
            final(self).proxy_routes == old(self).proxy_routes,
            forall|i: int|
                0 <= i < final(self).workers@.len() ==> (#[trigger] final(self).workers@[i]).wf(),
            unique_workers(final(self).workers@.to_multiset()),
            final(self).workers@.to_multiset() == old(self).workers@.to_multiset().filter(
                |w: WorkerChannels|
                    !(w.id == id && (incarnation_id is None || incarnation_id == Some(
                        w.incarnation_id,
                    ))),
            ),
    {
        let ghost ws = self.workers@;
        let ghost m = ws.to_multiset();
        let ghost keep = |w: WorkerChannels|
            !(w.id == id && (incarnation_id is None || incarnation_id == Some(w.incarnation_id)));
        let mut i: usize = 0;
        proof {
            if ws.len() == 0 {
                lemma_filter_keeps_all(ws, keep);
            }
        }
        while i < self.workers.len()
            invariant_except_break
                i <= ws.len(),
                self.workers@ == ws,
                forall|j: int| 0 <= j < i ==> keep(#[trigger] ws[j]),
                i == ws.len() ==> m.filter(keep) == m,
            invariant
                keep == |w: WorkerChannels|
                    !(w.id == id && (incarnation_id is None || incarnation_id == Some(
                        w.incarnation_id,
                    ))),
                m == ws.to_multiset(),
                unique_workers(m),
                forall|j: int| 0 <= j < ws.len() ==> (#[trigger] ws[j]).wf(),
                self.same_returns(old(self)),
                self.proxy_routes == old(self).proxy_routes,
            ensures
                self.workers@.to_multiset() == m.filter(keep),
                forall|j: int|
                    0 <= j < self.workers@.len() ==> (#[trigger] self.workers@[j]).wf(),
            decreases ws.len() - i,
        {
            let hit = self.workers[i].id == id && match incarnation_id {
                None => true,
                Some(n) => n == self.workers[i].incarnation_id,
            };
            if hit {
                let _gone = self.workers.remove(i);
                proof {
                    broadcast use vstd::multiset::group_multiset_axioms;
                    broadcast use vstd::seq_lib::group_to_multiset_ensures;

                    let o = ws[i as int];
                    assert(ws.contains(o));
                    assert(m.count(o) == 1);
                    assert(self.workers@.to_multiset() =~= m.remove(o));
                    assert forall|x: WorkerChannels| m.remove(o).count(x) == m.filter(keep).count(
                        x,
                    ) by {
                        if x != o && !keep(x) && m.count(x) > 0 {
                            assert(m.count(o) > 0 && x.id == o.id);
                        }
                    }
                    assert(m.remove(o) =~= m.filter(keep));
                    assert forall|j: int| 0 <= j < self.workers@.len() implies (
                    #[trigger] self.workers@[j]).wf() by {
                        if j < i {
                            assert(self.workers@[j] == ws[j]);
                        } else {
                            assert(self.workers@[j] == ws[j + 1]);
                        }
                    }
                }
                break ;
            }
            i = i + 1;
            proof {
                if i == ws.len() {
                    lemma_filter_keeps_all(ws, keep);
                }
            }
        }
        proof {
            broadcast use vstd::multiset::group_multiset_axioms;

            let n = self.workers@.to_multiset();
            assert(unique_workers(n)) by {
                assert forall|a: WorkerChannels, b: WorkerChannels|
                    #![trigger n.count(a), n.count(b)]
                    n.count(a) > 0 && n.count(b) > 0 && a.id == b.id implies a == b by {
                    assert(m.count(a) > 0 && m.count(b) > 0);
                }
                assert forall|a: WorkerChannels| #[trigger] n.count(a) <= 1 by {
                    assert(m.count(a) <= 1);
                }
            }
        }
    }

    /// Registers a worker in place of an earlier incarnation of it.
    pub fn register(&mut self, channels: WorkerChannels)
        requires
            old(self).wf(),
            channels.wf(),
        ensures
            final(self).wf(),
            final(self).same_returns(old(self)),
            final(self).proxy_routes == old(self).proxy_routes,
            final(self).workers@.to_multiset() == registered(
                old(self).workers@.to_multiset(),
                channels,
            ),
    {
        let ghost m = self.workers@.to_multiset();
        self.remove_worker(channels.id, None);
        let ghost rest = self.workers@;
        proof {
            broadcast use vstd::multiset::group_multiset_axioms;

            let id = channels.id;
            let inc: Option<u64> = None;
            assert(m.filter(
                |w: WorkerChannels| !(w.id == id && (inc is None || inc == Some(w.incarnation_id))),
            ) =~= m.filter(|w: WorkerChannels| w.id != channels.id));
        }
        let mut updated: Vec<WorkerChannels> = Vec::new();
        updated.append(&mut self.workers);
        updated.push(channels);
        proof {
            broadcast use vstd::multiset::group_multiset_axioms;
            broadcast use vstd::seq_lib::group_to_multiset_ensures;

            assert(updated@ =~= rest.push(channels));
            let r = rest.to_multiset();
            let n = updated@.to_multiset();
            assert(n =~= r.insert(channels));
            assert(forall|w: WorkerChannels| r.count(w) > 0 ==> w.id != channels.id);
            assert(unique_workers(n)) by {
                assert forall|a: WorkerChannels, b: WorkerChannels|
                    #![trigger n.count(a), n.count(b)]
                    n.count(a) > 0 && n.count(b) > 0 && a.id == b.id implies a == b by {
                    if a != channels && b != channels {
                        assert(r.count(a) > 0 && r.count(b) > 0);
                    } else if a != channels {
                        assert(r.count(a) > 0);
                    } else if b != channels {
                        assert(r.count(b) > 0);
                    }
                }
                assert forall|a: WorkerChannels| #[trigger] n.count(a) <= 1 by {
                    assert(r.count(a) <= 1);
                    if a == channels {
                        assert(r.count(a) == 0);
                    }
                }
            }
        }
        self.workers = interleave_turn_paths(updated);
        proof {
            lemma_members_wf(updated@, self.workers@);
        }
    }

    /// Removes exactly one incarnation of a worker, with the streams that it carries.
    pub fn unregister(&mut self, id: usize, incarnation_id: u64)
        requires
            old(self).wf(),
        ensures
            final(self).wf(),
            final(self).same_returns(old(self)),
            final(self).workers@.to_multiset() == unregistered(
                old(self).workers@.to_multiset(),
                id,
                incarnation_id,
            ),
            forall|s: u64| #[trigger]
                final(self).proxy_routes.carrier(s) == if old(self).proxy_routes.carrier(s) == Some(
                    (id, incarnation_id),
                ) {
                    None
                } else {
                    old(self).proxy_routes.carrier(s)
                },
    {
        let ghost m = self.workers@.to_multiset();
        self.remove_worker(id, Some(incarnation_id));
        let ghost rest = self.workers@;
        proof {
            broadcast use vstd::multiset::group_multiset_axioms;

            let inc: Option<u64> = Some(incarnation_id);
            assert(m.filter(
                |w: WorkerChannels| !(w.id == id && (inc is None || inc == Some(w.incarnation_id))),
            ) =~= m.filter(
                |w: WorkerChannels| !(w.id == id && w.incarnation_id == incarnation_id),
            ));
        }
        let mut updated: Vec<WorkerChannels> = Vec::new();
        updated.append(&mut self.workers);
        proof {
            assert(updated@ =~= rest);
        }
        self.workers = interleave_turn_paths(updated);
        proof {
            lemma_members_wf(updated@, self.workers@);
        }
        self.proxy_routes.remove_carrier(id, incarnation_id);
    }

    /// Number of registered workers.
    pub fn active_count(&self) -> (r: usize)
        ensures
            r == self.workers@.len(),
    {
        self.workers.len()
    }

    /// The registered worker with a number.
    pub fn worker(&self, id: usize) -> (r: Option<&WorkerChannels>)
        ensures
            match r {
                Some(w) => w.id == id && self.workers@.contains(*w),
                None => forall|i: int|
                    0 <= i < self.workers@.len() ==> (#[trigger] self.workers@[i]).id != id,
            },
    {
        let mut i: usize = 0;
        while i < self.workers.len()
            invariant
                i <= self.workers@.len(),
                forall|j: int| 0 <= j < i ==> (#[trigger] self.workers@[j]).id != id,
            decreases self.workers@.len() - i,
        {
            if self.workers[i].id == id {
                proof {
                    assert(self.workers@.contains(self.workers@[i as int]));
                }
                return Some(&self.workers[i]);
            }
            i = i + 1;
        }
        None
    }

    /// Whether the queue of a worker for a class takes a packet.
    fn worker_has_room(&self, at: usize, class: PacketClass) -> (r: bool)
        requires
            at < self.workers@.len(),
        ensures
            r == has_room(class_queue(self.workers@[at as int], class)),
    {
        let w = &self.workers[at];
        match class {
            PacketClass::Latency => w.latency.has_room(),
            PacketClass::Priority => w.priority.has_room(),
            PacketClass::Bulk => w.bulk.has_room(),
        }
    }

    /// Puts a packet into the queue of a worker for a class; a full queue gives up
    /// its oldest packet.
    fn push_to_worker(&mut self, at: usize, class: PacketClass, packet: Vec<u8>) -> (r: bool)
        requires
            old(self).wf(),
            at < old(self).workers@.len(),
        ensures
            final(self).wf(),
            final(self).same_returns(old(self)),
            final(self).proxy_routes == old(self).proxy_routes,
            r == class_queue(old(self).workers@[at as int], class).accepts(),
            final(self).workers@.len() == old(self).workers@.len(),
            forall|i: int|
                0 <= i < old(self).workers@.len() && i != at ==> #[trigger] final(self).workers@[i]
                    == old(self).workers@[i],
            ({
                let q = class_queue(old(self).workers@[at as int], class);
                only_items_changed(
                    old(self).workers@[at as int],
                    final(self).workers@[at as int],
                    class,
                    if r {
                        force_pushed(
                            q.items(),
                            q.capacity(),
                            (QueuedPacket { packet, epoch: q.epoch() as u64 }),
                        )
                    } else {
                        q.items()
                    },
                )
            }),
    {
        let ghost ws = self.workers@;
        let w = &mut self.workers[at];
        let sent = match class {
            PacketClass::Latency => w.latency.force_send(packet),
            PacketClass::Priority => w.priority.force_send(packet),
            PacketClass::Bulk => w.bulk.force_send(packet),
        };
        proof {
            assert(self.workers@ =~= ws.update(at as int, self.workers@[at as int]));
            lemma_update_worker(ws, at as int, self.workers@[at as int]);
        }
        sent.is_ok()
    }

    /// Sends a packet of a class to the first worker in `order` whose queue has room.
    /// Where none has, the first of them gives up its oldest packet for it. The result
    /// tells whether the packet is on its way.
    pub fn dispatch(&mut self, class: PacketClass, order: &[usize], packet: Vec<u8>) -> (r: bool)
        requires
            old(self).wf(),
            forall|k: int| 0 <= k < order@.len() ==> #[trigger] order@[k] < old(self).workers@.len(),
        ensures
            final(self).wf(),
            final(self).same_returns(old(self)),
            final(self).proxy_routes == old(self).proxy_routes,
            dispatched(old(self), final(self), class, order@, packet, r),
    {
        if order.len() == 0 {
            return false;
        }
        let mut k: usize = 0;
        let mut found = false;
        proof {
            lemma_first_with_room(self.workers@, order@, class, 0);
        }
        while k < order.len() && !found
            invariant
                k <= order@.len(),
                forall|j: int| 0 <= j < order@.len() ==> #[trigger] order@[j] < self.workers@.len(),
                *self == *old(self),
                forall|j: int|
                    0 <= j < k ==> !has_room(
                        class_queue(self.workers@[#[trigger] order@[j] as int], class),
                    ),
                found ==> k < order@.len() && has_room(
                    class_queue(self.workers@[order@[k as int] as int], class),
                ),
            decreases
                    order@.len() - k + (if found {
                        0int
                    } else {
                        1int
                    }),
        {
            if self.worker_has_room(order[k], class) {
                found = true;
            } else {
                k = k + 1;
            }
        }
        proof {
            lemma_first_with_room(self.workers@, order@, class, k as int);
        }
        if found {
            self.push_to_worker(order[k], class, packet)
        } else {
            self.push_to_worker(order[0], class, packet)
        }
    }

    /// Tells the dispatcher that a local proxy takes frames from now on; refuses a
    /// second one.
    pub fn set_proxy_frame_sender(&mut self) -> (r: Result<(), ()>)
        requires
            old(self).wf(),
        ensures
            final(self).wf(),
            r is Ok <==> !old(self).proxy_frames,
            final(self).proxy_frames,
            final(self).workers == old(self).workers,
            final(self).proxy_routes == old(self).proxy_routes,
            final(self).return_latency == old(self).return_latency,
            final(self).return_priority == old(self).return_priority,
            final(self).return_bulk == old(self).return_bulk,
            final(self).cancelled == old(self).cancelled,
    {
        if self.proxy_frames {
            return Err(());
        }
        self.proxy_frames = true;
        Ok(())
    }

    /// Takes a packet that came back through the tunnel: a proxy frame goes to the
    /// local proxy, anything else to the return queue of its class.
    pub fn return_packet(&mut self, packet: Vec<u8>, class: PacketClass) -> (r: ReturnAction)
        requires
            old(self).wf(),
        ensures
            final(self).wf(),
            final(self).workers == old(self).workers,
            final(self).proxy_routes == old(self).proxy_routes,
            final(self).proxy_frames == old(self).proxy_frames,
            final(self).cancelled == old(self).cancelled,
            packet_returned(old(self), final(self), packet, class, r),
    {
        if is_frame(packet.as_slice()) {
            if self.proxy_frames {
                return ReturnAction::Frame(packet);
            }
            return ReturnAction::Ignored;
        }
        let sent = match class {
            PacketClass::Latency => self.return_latency.force_send(packet),
            PacketClass::Priority => self.return_priority.force_send(packet),
            PacketClass::Bulk => self.return_bulk.force_send(packet),
        };
        if sent.is_ok() {
            ReturnAction::Queued
        } else {
            ReturnAction::Refused
        }
    }

    /// The return queue of a class.
    pub open spec fn return_queue(&self, class: PacketClass) -> PacketQueue {
        match class {
            PacketClass::Latency => self.return_latency,
            PacketClass::Priority => self.return_priority,
            PacketClass::Bulk => self.return_bulk,
        }
    }

    /// Notes whether the local proxy took a frame. Frames carry bytes of TCP streams,
    /// so a lost one ends the tunnel.
    pub fn frame_delivered(&mut self, taken: bool)
        requires
            old(self).wf(),
        ensures
            final(self).wf(),
            final(self).workers == old(self).workers,
            final(self).proxy_routes == old(self).proxy_routes,
            final(self).proxy_frames == old(self).proxy_frames,
            final(self).return_latency == old(self).return_latency,
            final(self).return_priority == old(self).return_priority,
            final(self).return_bulk == old(self).return_bulk,
            final(self).cancelled == (old(self).cancelled || !taken),
    {
        if !taken {
            self.cancelled = true;
        }
    }

    /// Sends a frame of a proxied stream through the worker that carries the stream.
    /// Opening a stream makes the first worker its carrier. A frame that the carrier's
    /// queue does not take ends the tunnel: its bytes may not be lost.
    pub fn send_proxy_frame(&mut self, frame: &[u8], buffer_free: bool) -> (r: Result<
        (),
        ProxySendError,
    >)
        requires
            old(self).wf(),
        ensures
            final(self).wf(),
            final(self).proxy_frames == old(self).proxy_frames,
            final(self).return_latency == old(self).return_latency,
            final(self).return_priority == old(self).return_priority,
            final(self).return_bulk == old(self).return_bulk,
            frame_sent(old(self), final(self), frame@, buffer_free, r),
    {
        let (kind, stream_id): (u8, u64) = match frame_route(frame) {
            None => {
                proof {
                    assert forall|kind: u8, stream: u64, payload: Seq<u8>| frame@
                        != #[trigger] frame_bytes(magic(), kind, stream, payload) by {
                        law_frame_round_trip(magic(), kind, stream, payload);
                    }
                }
                return Err(ProxySendError::InvalidFrame);
            },
            Some((kind, stream_id)) => (kind, stream_id),
        };
        proof {
            assert forall|k: u8, s: u64, payload: Seq<u8>| frame@ == #[trigger] frame_bytes(
                magic(),
                k,
                s,
                payload,
            ) implies k == kind && s == stream_id by {
                law_frame_round_trip(magic(), k, s, payload);
                law_frame_round_trip(magic(), kind, stream_id, frame@.skip(15));
            }
        }
        let route: (usize, u64) = if kind == OPEN {
            if self.workers.len() == 0 {
                return Err(ProxySendError::TransportNotReady);
            }
            let id: usize = self.workers[0].id;
            let incarnation: u64 = self.workers[0].incarnation_id;
            self.proxy_routes.insert(stream_id, id, incarnation);
            (id, incarnation)
        } else {
            match self.proxy_routes.get(stream_id) {
                None => {
                    return Err(ProxySendError::CarrierUnavailable);
                },
                Some(route) => route,
            }
        };
        let ghost ws = self.workers@;
        let mut at: usize = 0;
        let mut found = false;
        while at < self.workers.len() && !found
            invariant
                at <= ws.len(),
                self.workers@ == ws,
                forall|j: int| 0 <= j < at ==> !is_carrier(#[trigger] ws[j], route),
                found ==> at < ws.len() && is_carrier(ws[at as int], route),
            decreases
                    ws.len() - at + (if found {
                        0int
                    } else {
                        1int
                    }),
        {
            if self.workers[at].id == route.0 && self.workers[at].incarnation_id == route.1 {
                found = true;
            } else {
                at = at + 1;
            }
        }
        if !found {
            self.proxy_routes.remove(stream_id);
            return Err(ProxySendError::CarrierReplaced);
        }
        proof {
            assert(is_carrier(ws[at as int], route));
            assert forall|j: int| 0 <= j < ws.len() && is_carrier(ws[j], route) implies j == at by {
                lemma_unique_index(ws, j, at as int);
            }
        }
        if !buffer_free {
            return Err(ProxySendError::PoolExhausted);
        }
        if !self.worker_has_room(at, PacketClass::Priority) {
            self.proxy_routes.remove(stream_id);
            self.cancelled = true;
            return Err(ProxySendError::QueueUnavailable);
        }
        let _sent = self.push_to_worker(at, PacketClass::Priority, copy_bytes(frame));
        if kind == CLOSE {
            self.proxy_routes.remove(stream_id);
        }
        Ok(())
    }

    /// No sender of returned packets is left.
    pub open spec fn returns_abandoned(&self) -> bool {
        self.return_latency.sender_count() == 0 && self.return_priority.sender_count() == 0
            && self.return_bulk.sender_count() == 0
    }

    /// Whether this is `before` without its next returned packet, which is `r`: latency
    /// before priority before bulk, and none where nothing can be delivered.
    pub open spec fn took_next(&self, before: &Dispatcher, r: Option<Vec<u8>>) -> bool {
        let l = before.return_latency.deliverable();
        let p = before.return_priority.deliverable();
        let b = before.return_bulk.deliverable();
        &&& self.workers == before.workers
        &&& self.proxy_routes == before.proxy_routes
        &&& self.proxy_frames == before.proxy_frames
        &&& self.cancelled == before.cancelled
        &&& self.return_latency.same_setup(&before.return_latency)
        &&& self.return_priority.same_setup(&before.return_priority)
        &&& self.return_bulk.same_setup(&before.return_bulk)
        &&& if l.len() > 0 {
            &&& r == Some(l[0].packet)
            &&& self.return_latency.items() == l.skip(1)
            &&& self.return_priority == before.return_priority
            &&& self.return_bulk == before.return_bulk
        } else if p.len() > 0 {
            &&& r == Some(p[0].packet)
            &&& self.return_latency.items().len() == 0
            &&& self.return_priority.items() == p.skip(1)
            &&& self.return_bulk == before.return_bulk
        } else if b.len() > 0 {
            &&& r == Some(b[0].packet)
            &&& self.return_latency.items().len() == 0
            &&& self.return_priority.items().len() == 0
            &&& self.return_bulk.items() == b.skip(1)
        } else {
            &&& r is None
            &&& self.return_latency.items().len() == 0
            &&& self.return_priority.items().len() == 0
            &&& self.return_bulk.items().len() == 0
        }
    }

    /// Takes the next returned packet: latency before priority before bulk.
    pub fn next_return_packet(&mut self) -> (r: Option<Vec<u8>>)
        requires
            old(self).wf(),
        ensures
            final(self).wf(),
            final(self).took_next(old(self), r),
    {
        match self.return_latency.try_recv() {
            Some(packet) => Some(packet),
            None => match self.return_priority.try_recv() {
                Some(packet) => Some(packet),
                None => self.return_bulk.try_recv(),
            },
        }
    }

    /// Asks for the next returned packet without waiting; the returns are closed once
    /// all three queues are.
    pub fn poll_return(&mut self) -> (r: RecvPoll)
        requires
            old(self).wf(),
        ensures
            final(self).wf(),
            match r {
                RecvPoll::Packet(packet) => final(self).took_next(old(self), Some(packet)),
                _ => final(self).took_next(old(self), None),
            },
            r is Closed ==> old(self).returns_abandoned(),
            r is Pending ==> !old(self).returns_abandoned(),
    {
        match self.next_return_packet() {
            Some(packet) => RecvPoll::Packet(packet),
            None => {
                if self.return_latency.is_closed() && self.return_priority.is_closed()
                    && self.return_bulk.is_closed() {
                    RecvPoll::Closed
                } else {
                    RecvPoll::Pending
                }
            },
        }
    }

    /// Collects the datagrams that leave together with `first`: nothing joins a latency
    /// packet, priority packets join while no latency packet waits, and bulk packets
    /// join while neither latency nor priority packets wait.
    pub fn fill_send_batch(
        &mut self,
        first: Vec<u8>,
        class: PacketClass,
        priority_limit: usize,
        bulk_limit: usize,
    ) -> (r: Vec<Vec<u8>>)
        requires
            old(self).wf(),
        ensures
            final(self).wf(),
            final(self).workers == old(self).workers,
            final(self).proxy_routes == old(self).proxy_routes,
            final(self).proxy_frames == old(self).proxy_frames,
            final(self).cancelled == old(self).cancelled,
            final(self).return_latency == old(self).return_latency,
            batch_filled(
                old(self),
                final(self),
                first,
                class,
                priority_limit,
                bulk_limit,
                r@,
            ),
    {
        let mut batch: Vec<Vec<u8>> = Vec::new();
        batch.push(first);
        proof {
            assert(batch@ =~= seq![first]);
        }
        match class {
            PacketClass::Latency => {},
            PacketClass::Priority => {
                if !self.return_latency.has_queued_packet() {
                    collect_batch(&mut self.return_priority, &mut batch, priority_limit);
                }
            },
            PacketClass::Bulk => {
                if !self.return_latency.has_queued_packet()
                    && !self.return_priority.has_queued_packet() {
                    collect_batch(&mut self.return_bulk, &mut batch, bulk_limit);
                }
            },
        }
        batch
    }

    /// Ends the tunnel.
    pub fn shutdown(&mut self)
        requires
            old(self).wf(),
        ensures
            final(self).wf(),
            final(self).cancelled,
            final(self).workers == old(self).workers,
            final(self).proxy_routes == old(self).proxy_routes,
            final(self).proxy_frames == old(self).proxy_frames,
            final(self).return_latency == old(self).return_latency,
            final(self).return_priority == old(self).return_priority,
            final(self).return_bulk == old(self).return_bulk,
    {
        self.cancelled = true;
    }
}

/// What taking up to `n` packets from a queue gives, and what it leaves queued.
pub open spec fn drained(
    items: Seq<QueuedPacket>,
    active: bool,
    epoch: nat,
    n: nat,
) -> (Seq<Vec<u8>>, Seq<QueuedPacket>)
    decreases n,
{
    if n == 0 {
        (Seq::empty(), items)
    } else {
        let s = if active {
            skip_stale(items, epoch)
        } else {
            Seq::empty()
        };
        if s.len() == 0 {
            (Seq::empty(), Seq::empty())
        } else {
            let (more, rest) = drained(s.skip(1), active, epoch, (n - 1) as nat);
            (seq![s[0].packet] + more, rest)
        }
    }
}

/// Whether a batch holds `first` and what filling it up to `limit` takes from a queue.
pub open spec fn batch_drained(
    old_q: PacketQueue,
    new_q: PacketQueue,
    first: Vec<u8>,
    batch: Seq<Vec<u8>>,
    limit: usize,
) -> bool {
    let n = if limit > 1 {
        (limit - 1) as nat
    } else {
        0
    };
    let (taken, rest) = drained(old_q.items(), old_q.active(), old_q.epoch(), n);
    &&& batch == seq![first] + taken
    &&& new_q.items() == rest
    &&& new_q.same_setup(&old_q)
}

/// Takes packets from a queue until the batch has `limit` of them or none is left.
fn collect_batch(queue: &mut PacketQueue, batch: &mut Vec<Vec<u8>>, limit: usize)
    requires
        old(queue).wf(),
        old(batch)@.len() == 1,
    ensures
        final(queue).wf(),
        batch_drained(*old(queue), *final(queue), old(batch)@[0], final(batch)@, limit),
{
    let mut empty = false;
    let ghost n: nat = if limit > 1 {
        (limit - 1) as nat
    } else {
        0
    };
    let ghost first = batch@[0];
    let ghost all = drained(queue.items(), queue.active(), queue.epoch(), n);
    proof {
        assert(batch@ =~= seq![first]);
    }
    while batch.len() < limit && !empty
        invariant
            queue.wf(),
            queue.same_setup(old(queue)),
            batch@.len() >= 1,
            n == (if limit > 1 {
                (limit - 1) as nat
            } else {
                0
            }),
            batch@.len() <= n + 1,
            all == drained(old(queue).items(), old(queue).active(), old(queue).epoch(), n),
            seq![first] + all.0 == batch@ + drained(
                queue.items(),
                queue.active(),
                queue.epoch(),
                (n + 1 - batch@.len()) as nat,
            ).0,
            all.1 == drained(
                queue.items(),
                queue.active(),
                queue.epoch(),
                (n + 1 - batch@.len()) as nat,
            ).1,
            empty ==> queue.items().len() == 0,
        decreases
                limit - batch@.len() + (if empty {
                    0int
                } else {
                    1int
                }),
    {
        let ghost before = queue.deliverable();
        let ghost left = (n + 1 - batch@.len()) as nat;
        let ghost d = drained(queue.items(), queue.active(), queue.epoch(), left);
        match queue.try_recv() {
            None => {
                empty = true;
                proof {
                    assert(queue.items() =~= Seq::<QueuedPacket>::empty());
                    assert(d.0 =~= Seq::<Vec<u8>>::empty());
                }
            },
            Some(packet) => {
                let ghost was = batch@;
                batch.push(packet);
                proof {
                    let more = drained(
                        before.skip(1),
                        queue.active(),
                        queue.epoch(),
                        (left - 1) as nat,
                    );
                    assert(was + (seq![packet] + more.0) =~= batch@ + more.0);
                }
            },
        }
    }
    proof {
        let left = (n + 1 - batch@.len()) as nat;
        let d = drained(queue.items(), queue.active(), queue.epoch(), left);
        if left > 0 {
            assert(queue.items().len() == 0);
            assert(skip_stale(queue.items(), queue.epoch()).len() == 0);
        }
        assert(d.0 =~= Seq::<Vec<u8>>::empty());
        assert(batch@ + d.0 =~= batch@);
        assert(d.1 =~= queue.items());
    }
}

/// The first position from `from` on whose worker has room for the class.
pub open spec fn first_with_room(
    ws: Seq<WorkerChannels>,
    order: Seq<usize>,
    class: PacketClass,
    from: int,
) -> int
    decreases order.len() - from,
{
    if from >= order.len() {
        order.len() as int
    } else if has_room(class_queue(ws[order[from] as int], class)) {
        from
    } else {
        first_with_room(ws, order, class, from + 1)
    }
}

/// The position in `order` of the worker that gets a packet: the first with room, or
/// the first of all.
pub open spec fn chosen_worker(
    ws: Seq<WorkerChannels>,
    order: Seq<usize>,
    class: PacketClass,
) -> int {
    let k = first_with_room(ws, order, class, 0);
    if k < order.len() {
        k
    } else {
        0
    }
}

proof fn lemma_first_with_room(
    ws: Seq<WorkerChannels>,
    order: Seq<usize>,
    class: PacketClass,
    k: int,
)
    requires
        0 <= k <= order.len(),
        forall|j: int|
            0 <= j < k ==> !has_room(class_queue(ws[#[trigger] order[j] as int], class)),
    ensures
        first_with_room(ws, order, class, 0) == first_with_room(ws, order, class, k),
    decreases k,
{
    if k > 0 {
        lemma_first_with_room(ws, order, class, k - 1);
        assert(!has_room(class_queue(ws[order[k - 1] as int], class)));
    }
}

/// What dispatching a packet does: nothing where no worker is named, else the chosen
/// worker's queue takes it.
pub open spec fn dispatched(
    before: &Dispatcher,
    after: &Dispatcher,
    class: PacketClass,
    order: Seq<usize>,
    packet: Vec<u8>,
    r: bool,
) -> bool {
    let ws = before.workers@;
    if order.len() == 0 {
        !r && after.workers@ == ws
    } else {
        let at = order[chosen_worker(ws, order, class)] as int;
        let q = class_queue(ws[at], class);
        &&& r == q.accepts()
        &&& after.workers@.len() == ws.len()
        &&& forall|i: int|
            0 <= i < ws.len() && i != at ==> #[trigger] after.workers@[i] == ws[i]
        &&& only_items_changed(
            ws[at],
            after.workers@[at],
            class,
            if r {
                force_pushed(
                    q.items(),
                    q.capacity(),
                    (QueuedPacket { packet, epoch: q.epoch() as u64 }),
                )
            } else {
                q.items()
            },
        )
    }
}

/// Every class has a queue of its own, and a queue has room while it accepts packets
/// and holds fewer than fit.
pub proof fn law_classes_have_their_own_queues(w: WorkerChannels, q: PacketQueue)
    ensures
        class_queue(w, PacketClass::Latency) == w.latency,
        class_queue(w, PacketClass::Priority) == w.priority,
        class_queue(w, PacketClass::Bulk) == w.bulk,
        has_room(q) <==> q.open() && q.active() && q.items().len() < q.capacity(),
{
}

/// While a worker has room, no packet is lost: the first worker in the order whose
/// queue for the class has room gets the packet behind what it held, every other queue
/// of every worker is as it was, and nothing leaves any queue.
pub proof fn law_dispatch_uses_the_first_room(
    before: &Dispatcher,
    after: &Dispatcher,
    class: PacketClass,
    order: Seq<usize>,
    packet: Vec<u8>,
    r: bool,
    k: int,
)
    requires
        dispatched(before, after, class, order, packet, r),
        forall|j: int| 0 <= j < order.len() ==> #[trigger] order[j] < before.workers@.len(),
        0 <= k < order.len(),
        has_room(class_queue(before.workers@[order[k] as int], class)),
        forall|j: int|
            0 <= j < k ==> !has_room(
                class_queue(before.workers@[#[trigger] order[j] as int], class),
            ),
    ensures
        r,
        after.workers@.len() == before.workers@.len(),
        ({
            let at = order[k] as int;
            let q = class_queue(before.workers@[at], class);
            &&& class_queue(after.workers@[at], class).items() == q.items().push(
                (QueuedPacket { packet, epoch: q.epoch() as u64 }),
            )
            &&& forall|i: int, c: PacketClass|
                0 <= i < before.workers@.len() && (i != at || c != class) ==> #[trigger] class_queue(
                    after.workers@[i],
                    c,
                ) == class_queue(before.workers@[i], c)
        }),
        forall|i: int, c: PacketClass|
            0 <= i < before.workers@.len() ==> class_queue(
                before.workers@[i],
                c,
            ).items().is_prefix_of(#[trigger] class_queue(after.workers@[i], c).items()),
{
    let ws = before.workers@;
    lemma_first_with_room(ws, order, class, k);
    let at = order[k] as int;
    assert forall|i: int, c: PacketClass| 0 <= i < ws.len() implies class_queue(
        ws[i],
        c,
    ).items().is_prefix_of(#[trigger] class_queue(after.workers@[i], c).items()) by {
        if i != at {
            assert(after.workers@[i] == ws[i]);
        }
    }
}

/// Where no worker in the order has room, only the first of them is touched: it keeps
/// its newest packets and the new one, giving up the oldest; where it accepts nothing,
/// nothing changes and the packet is not sent.
pub proof fn law_dispatch_forces_the_first_worker(
    before: &Dispatcher,
    after: &Dispatcher,
    class: PacketClass,
    order: Seq<usize>,
    packet: Vec<u8>,
    r: bool,
)
    requires
        before.wf(),
        dispatched(before, after, class, order, packet, r),
        forall|j: int| 0 <= j < order.len() ==> #[trigger] order[j] < before.workers@.len(),
        0 < order.len(),
        forall|j: int|
            0 <= j < order.len() ==> !has_room(
                class_queue(before.workers@[#[trigger] order[j] as int], class),
            ),
    ensures
        after.workers@.len() == before.workers@.len(),
        ({
            let at = order[0] as int;
            let q = class_queue(before.workers@[at], class);
            let items = class_queue(after.workers@[at], class).items();
            &&& r <==> q.open() && q.active()
            &&& r ==> items.last() == (QueuedPacket { packet, epoch: q.epoch() as u64 })
                && items.drop_last() == q.items().skip(1) && items.len() == q.capacity()
            &&& !r ==> items == q.items()
            &&& forall|i: int, c: PacketClass|
                0 <= i < before.workers@.len() && (i != at || c != class) ==> #[trigger] class_queue(
                    after.workers@[i],
                    c,
                ) == class_queue(before.workers@[i], c)
        }),
{
    let ws = before.workers@;
    lemma_first_with_room(ws, order, class, order.len() as int);
    let at = order[0] as int;
    assert(order[0] < ws.len());
    assert(ws[at].wf());
    assert(!has_room(class_queue(ws[order[0] as int], class)));
    let q = class_queue(ws[at], class);
    let items = class_queue(after.workers@[at], class).items();
    if r {
        assert(items.drop_last() =~= q.items().skip(1));
    }
}

/// What sending a frame through a carrier does.
pub open spec fn sent_by_carrier(
    old_d: &Dispatcher,
    new_d: &Dispatcher,
    r: Result<(), ProxySendError>,
    carrier: (usize, u64),
    kind: u8,
    stream: u64,
    frame: Seq<u8>,
    buffer_free: bool,
) -> bool {
    let ws = old_d.workers@;
    if forall|i: int| 0 <= i < ws.len() ==> !is_carrier(#[trigger] ws[i], carrier) {
        &&& r == Err::<(), ProxySendError>(ProxySendError::CarrierReplaced)
        &&& new_d.proxy_routes.carrier(stream) is None
    } else if !buffer_free {
        &&& r == Err::<(), ProxySendError>(ProxySendError::PoolExhausted)
        &&& new_d.proxy_routes.carrier(stream) == Some(carrier)
    } else {
        forall|i: int|
            #![trigger ws[i]]
            0 <= i < ws.len() && is_carrier(ws[i], carrier) ==> if has_room(ws[i].priority) {
                &&& r is Ok
                &&& new_d.proxy_routes.carrier(stream) == (if kind == CLOSE {
                    None
                } else {
                    Some(carrier)
                })
                &&& new_d.workers@.len() == ws.len()
                &&& forall|j: int|
                    0 <= j < ws.len() && j != i ==> #[trigger] new_d.workers@[j] == ws[j]
                &&& exists|packet: Vec<u8>|
                    packet@ == frame && #[trigger] only_items_changed(
                        ws[i],
                        new_d.workers@[i],
                        PacketClass::Priority,
                        ws[i].priority.items().push(
                            (QueuedPacket { packet, epoch: ws[i].priority.epoch() as u64 }),
                        ),
                    )
            } else {
                &&& r == Err::<(), ProxySendError>(ProxySendError::QueueUnavailable)
                &&& new_d.proxy_routes.carrier(stream) is None
            }
    }
}

/// What sending a frame does to the workers, the routes and the tunnel.
pub open spec fn frame_sent(
    before: &Dispatcher,
    after: &Dispatcher,
    frame: Seq<u8>,
    buffer_free: bool,
    r: Result<(), ProxySendError>,
) -> bool {
    &&& after.cancelled == (before.cancelled || r == Err::<(), ProxySendError>(
        ProxySendError::QueueUnavailable,
    ))
    &&& r is Err ==> after.workers@ == before.workers@
    &&& !frame_shaped(magic(), frame) ==> r == Err::<(), ProxySendError>(
        ProxySendError::InvalidFrame,
    ) && after.proxy_routes == before.proxy_routes
    &&& forall|kind: u8, stream: u64, payload: Seq<u8>|
        frame == #[trigger] frame_bytes(magic(), kind, stream, payload) ==> {
            let first = (before.workers@[0].id, before.workers@[0].incarnation_id);
            let route = if kind == OPEN {
                if before.workers@.len() > 0 {
                    Some(first)
                } else {
                    None
                }
            } else {
                before.proxy_routes.carrier(stream)
            };
            &&& forall|s: u64|
                s != stream ==> #[trigger] after.proxy_routes.carrier(s)
                    == before.proxy_routes.carrier(s)
            &&& match route {
                None => {
                    &&& r == Err::<(), ProxySendError>(
                        if kind == OPEN {
                            ProxySendError::TransportNotReady
                        } else {
                            ProxySendError::CarrierUnavailable
                        },
                    )
                    &&& after.proxy_routes.carrier(stream) == before.proxy_routes.carrier(stream)
                },
                Some(carrier) => sent_by_carrier(
                    before,
                    after,
                    r,
                    carrier,
                    kind,
                    stream,
                    frame,
                    buffer_free,
                ),
            }
        }
}

/// Opening a stream makes the first worker its carrier: the frame stands behind whatever
/// that worker's priority queue held, and the stream is routed to the worker from then on.
/// Without a worker the tunnel is not ready.
pub proof fn law_open_takes_the_first_worker(
    before: &Dispatcher,
    after: &Dispatcher,
    stream: u64,
    payload: Seq<u8>,
    r: Result<(), ProxySendError>,
)
    requires
        before.wf(),
        frame_sent(before, after, frame_bytes(magic(), 1, stream, payload), true, r),
    ensures
        before.workers@.len() == 0 ==> r == Err::<(), ProxySendError>(
            ProxySendError::TransportNotReady,
        ),
        before.workers@.len() > 0 && has_room(before.workers@[0].priority) ==> {
            let w = before.workers@[0];
            let n = after.workers@[0];
            &&& r is Ok
            &&& after.cancelled == before.cancelled
            &&& after.proxy_routes.carrier(stream) == Some((w.id, w.incarnation_id))
            &&& n.priority.items().drop_last() == w.priority.items()
            &&& n.priority.items().last().packet@ == frame_bytes(magic(), 1, stream, payload)
            &&& n.latency == w.latency && n.bulk == w.bulk
        },
        before.workers@.len() > 0 && !has_room(before.workers@[0].priority) ==> r == Err::<
            (),
            ProxySendError,
        >(ProxySendError::QueueUnavailable) && after.cancelled && after.proxy_routes.carrier(stream)
            is None,
        forall|s: u64|
            s != stream ==> #[trigger] after.proxy_routes.carrier(s) == before.proxy_routes.carrier(
                s,
            ),
{
    let frame = frame_bytes(magic(), 1, stream, payload);
    if before.workers@.len() > 0 {
        let w = before.workers@[0];
        assert(is_carrier(w, (w.id, w.incarnation_id)));
        if has_room(w.priority) {
            assert(sent_by_carrier(
                before,
                after,
                r,
                (w.id, w.incarnation_id),
                1,
                stream,
                frame,
                true,
            ));
            let packet = choose|packet: Vec<u8>|
                packet@ == frame && #[trigger] only_items_changed(
                    w,
                    after.workers@[0],
                    PacketClass::Priority,
                    w.priority.items().push(
                        (QueuedPacket { packet, epoch: w.priority.epoch() as u64 }),
                    ),
                );
            assert(after.workers@[0].priority.items().drop_last() =~= w.priority.items());
        }
    }
}

/// Frames of an open stream all go to its carrier, in order, and to no other worker: each
/// stands last in the carrier's priority queue. A closing frame ends the route with it; a
/// frame that finds no room ends the tunnel, because the stream would miss bytes.
pub proof fn law_stream_keeps_its_carrier(
    before: &Dispatcher,
    after: &Dispatcher,
    kind: u8,
    stream: u64,
    payload: Seq<u8>,
    buffer_free: bool,
    r: Result<(), ProxySendError>,
    at: int,
)
    requires
        before.wf(),
        kind != 1,
        frame_sent(before, after, frame_bytes(magic(), kind, stream, payload), buffer_free, r),
        0 <= at < before.workers@.len(),
        before.proxy_routes.carrier(stream) == Some(
            (before.workers@[at].id, before.workers@[at].incarnation_id),
        ),
    ensures
        !buffer_free ==> r == Err::<(), ProxySendError>(ProxySendError::PoolExhausted)
            && after.proxy_routes.carrier(stream) == before.proxy_routes.carrier(stream)
            && after.cancelled == before.cancelled && after.workers@ == before.workers@,
        buffer_free && has_room(before.workers@[at].priority) ==> {
            let w = before.workers@[at];
            let n = after.workers@[at];
            &&& r is Ok
            &&& n.priority.items().drop_last() == w.priority.items()
            &&& n.priority.items().last().packet@ == frame_bytes(magic(), kind, stream, payload)
            &&& n.latency == w.latency && n.bulk == w.bulk
            &&& forall|j: int|
                0 <= j < before.workers@.len() && j != at ==> #[trigger] after.workers@[j]
                    == before.workers@[j]
            &&& kind == 5 ==> after.proxy_routes.carrier(stream) is None
            &&& kind != 5 ==> after.proxy_routes.carrier(stream) == before.proxy_routes.carrier(
                stream,
            )
            &&& after.cancelled == before.cancelled
        },
        buffer_free && !has_room(before.workers@[at].priority) ==> r == Err::<(), ProxySendError>(
            ProxySendError::QueueUnavailable,
        ) && after.cancelled && after.proxy_routes.carrier(stream) is None && after.workers@
            == before.workers@,
{
    let frame = frame_bytes(magic(), kind, stream, payload);
    let w = before.workers@[at];
    let carrier = (w.id, w.incarnation_id);
    assert(is_carrier(before.workers@[at], carrier));
    assert(sent_by_carrier(before, after, r, carrier, kind, stream, frame, buffer_free));
    if buffer_free && has_room(w.priority) {
        let packet = choose|packet: Vec<u8>|
            packet@ == frame && #[trigger] only_items_changed(
                w,
                after.workers@[at],
                PacketClass::Priority,
                w.priority.items().push(
                    (QueuedPacket { packet, epoch: w.priority.epoch() as u64 }),
                ),
            );
        assert(after.workers@[at].priority.items().drop_last() =~= w.priority.items());
    }
}

/// A frame of a stream that has no carrier, or whose carrier is gone, is refused without
/// touching any queue; a carrier that was replaced is forgotten.
pub proof fn law_lost_carrier_is_reported(
    before: &Dispatcher,
    after: &Dispatcher,
    kind: u8,
    stream: u64,
    payload: Seq<u8>,
    buffer_free: bool,
    r: Result<(), ProxySendError>,
)
    requires
        kind != 1,
        frame_sent(before, after, frame_bytes(magic(), kind, stream, payload), buffer_free, r),
    ensures
        before.proxy_routes.carrier(stream) is None ==> r == Err::<(), ProxySendError>(
            ProxySendError::CarrierUnavailable,
        ) && after.workers@ == before.workers@ && after.cancelled == before.cancelled,
        before.proxy_routes.carrier(stream) matches Some(carrier) && (forall|i: int|
            0 <= i < before.workers@.len() ==> (#[trigger] before.workers@[i]).id != carrier.0
                || before.workers@[i].incarnation_id != carrier.1) ==> r == Err::<
            (),
            ProxySendError,
        >(ProxySendError::CarrierReplaced) && after.proxy_routes.carrier(stream) is None
            && after.workers@ == before.workers@ && after.cancelled == before.cancelled,
{
    let frame = frame_bytes(magic(), kind, stream, payload);
    if let Some(carrier) = before.proxy_routes.carrier(stream) {
        assert(sent_by_carrier(before, after, r, carrier, kind, stream, frame, buffer_free));
    }
}

/// Whether a queue delivers all that it holds: it accepts packets, and no item is left from
/// before an interruption.
pub open spec fn all_current(q: PacketQueue) -> bool {
    q.active() && forall|i: int|
        0 <= i < q.items().len() ==> (#[trigger] q.items()[i]).epoch == q.epoch()
}

/// Returned packets leave by class and in order: the oldest latency packet before any
/// priority packet, the oldest priority packet before any bulk packet, and only that
/// packet leaves.
pub proof fn law_returns_leave_by_class(
    before: &Dispatcher,
    after: &Dispatcher,
    r: Option<Vec<u8>>,
)
    requires
        after.took_next(before, r),
        all_current(before.return_latency),
        all_current(before.return_priority),
        all_current(before.return_bulk),
    ensures
        ({
            let l = before.return_latency.items();
            let p = before.return_priority.items();
            let b = before.return_bulk.items();
            &&& l.len() > 0 ==> r == Some(l[0].packet) && after.return_latency.items() == l.skip(1)
                && after.return_priority == before.return_priority && after.return_bulk
                == before.return_bulk
            &&& l.len() == 0 && p.len() > 0 ==> r == Some(p[0].packet)
                && after.return_priority.items() == p.skip(1) && after.return_bulk
                == before.return_bulk
            &&& l.len() == 0 && p.len() == 0 && b.len() > 0 ==> r == Some(b[0].packet)
                && after.return_bulk.items() == b.skip(1)
            &&& r is None <==> l.len() == 0 && p.len() == 0 && b.len() == 0
        }),
{
    law_fifo_within_epoch(before.return_latency.items(), before.return_latency.epoch());
    law_fifo_within_epoch(before.return_priority.items(), before.return_priority.epoch());
    law_fifo_within_epoch(before.return_bulk.items(), before.return_bulk.epoch());
}

/// A batch holds the packet that it was started with, then the oldest packets of the queue
/// in order, as many as there are and as fit; the queue keeps the others.
pub proof fn law_batch_takes_the_oldest(
    old_q: PacketQueue,
    new_q: PacketQueue,
    first: Vec<u8>,
    batch: Seq<Vec<u8>>,
    limit: usize,
)
    requires
        batch_drained(old_q, new_q, first, batch, limit),
        all_current(old_q),
    ensures
        ({
            let taken = batch.len() - 1;
            &&& batch.len() >= 1
            &&& batch[0] == first
            &&& batch.len() <= limit || batch.len() == 1
            &&& taken <= old_q.items().len()
            &&& taken == old_q.items().len() || batch.len() >= limit
            &&& forall|i: int| 0 <= i < taken ==> #[trigger] batch[i + 1] == old_q.items()[i].packet
            &&& new_q.items() == old_q.items().skip(taken)
        }),
{
    let n: nat = if limit > 1 {
        (limit - 1) as nat
    } else {
        0
    };
    lemma_drained(old_q.items(), old_q.epoch(), n);
    let d = drained(old_q.items(), true, old_q.epoch(), n);
    assert forall|i: int| 0 <= i < batch.len() - 1 implies #[trigger] batch[i + 1]
        == old_q.items()[i].packet by {
        assert(batch[i + 1] == d.0[i]);
    }
}

proof fn lemma_drained(items: Seq<QueuedPacket>, epoch: nat, n: nat)
    requires
        forall|i: int| 0 <= i < items.len() ==> (#[trigger] items[i]).epoch == epoch,
    ensures
        ({
            let (taken, rest) = drained(items, true, epoch, n);
            &&& taken.len() <= n
            &&& taken.len() <= items.len()
            &&& taken.len() == n || taken.len() == items.len()
            &&& forall|i: int| 0 <= i < taken.len() ==> #[trigger] taken[i] == items[i].packet
            &&& rest == items.skip(taken.len() as int)
        }),
    decreases n,
{
    let (taken, rest) = drained(items, true, epoch, n);
    law_fifo_within_epoch(items, epoch);
    if n == 0 || items.len() == 0 {
        assert(rest =~= items.skip(0));
    } else {
        let tail = items.skip(1);
        assert forall|i: int| 0 <= i < tail.len() implies (#[trigger] tail[i]).epoch == epoch by {
            assert(tail[i] == items[i + 1]);
        }
        lemma_drained(tail, epoch, (n - 1) as nat);
        let (more, left) = drained(tail, true, epoch, (n - 1) as nat);
        assert forall|i: int| 0 <= i < taken.len() implies #[trigger] taken[i] == items[i].packet by {
            if i > 0 {
                assert(taken[i] == more[i - 1]);
                assert(tail[i - 1] == items[i]);
            }
        }
        assert(rest =~= items.skip(taken.len() as int));
    }
}

/// Every class has a return queue of its own.
pub proof fn law_classes_have_their_own_returns(d: &Dispatcher)
    ensures
        d.return_queue(PacketClass::Latency) == d.return_latency,
        d.return_queue(PacketClass::Priority) == d.return_priority,
        d.return_queue(PacketClass::Bulk) == d.return_bulk,
        d.returns_abandoned() <==> d.return_latency.sender_count() + d.return_priority.sender_count()
            + d.return_bulk.sender_count() == 0,
{
}

/// What returning a packet does.
pub open spec fn packet_returned(
    before: &Dispatcher,
    after: &Dispatcher,
    packet: Vec<u8>,
    class: PacketClass,
    r: ReturnAction,
) -> bool {
    if frame_shaped(magic(), packet@) {
        after.same_returns(before) && r == (if before.proxy_frames {
            ReturnAction::Frame(packet)
        } else {
            ReturnAction::Ignored
        })
    } else {
        let q = before.return_queue(class);
        let p = after.return_queue(class);
        &&& r == (if q.accepts() {
            ReturnAction::Queued
        } else {
            ReturnAction::Refused
        })
        &&& p.same_setup(&q)
        &&& p.items() == (if q.accepts() {
            force_pushed(
                q.items(),
                q.capacity(),
                (QueuedPacket { packet, epoch: q.epoch() as u64 }),
            )
        } else {
            q.items()
        })
        &&& forall|c: PacketClass|
            c != class ==> #[trigger] after.return_queue(c) == before.return_queue(c)
    }
}

/// A frame of a proxied stream never enters the returns: it goes to whoever takes frames, or
/// nowhere. Any other packet stands last in the queue of its class, and only that queue
/// changes; nothing enters a queue that is suspended or abandoned.
pub proof fn law_returned_packets_keep_their_class(
    before: &Dispatcher,
    after: &Dispatcher,
    packet: Vec<u8>,
    class: PacketClass,
    r: ReturnAction,
)
    requires
        before.wf(),
        packet_returned(before, after, packet, class, r),
    ensures
        frame_shaped(magic(), packet@) && before.proxy_frames ==> r == ReturnAction::Frame(packet),
        frame_shaped(magic(), packet@) && !before.proxy_frames ==> r == ReturnAction::Ignored,
        frame_shaped(magic(), packet@) ==> after.return_latency == before.return_latency
            && after.return_priority == before.return_priority && after.return_bulk
            == before.return_bulk,
        !frame_shaped(magic(), packet@) ==> {
            let q = before.return_queue(class);
            let p = after.return_queue(class);
            &&& r is Queued <==> q.open() && q.active()
            &&& r is Refused <==> !(q.open() && q.active())
            &&& r is Queued ==> p.items().last().packet == packet && p.items().last().epoch
                == q.epoch()
            &&& r is Queued && q.items().len() < q.capacity() ==> p.items().drop_last()
                == q.items()
            &&& r is Queued && q.items().len() == q.capacity() ==> p.items().drop_last()
                == q.items().skip(1)
            &&& r is Refused ==> p.items() == q.items()
        },
        !frame_shaped(magic(), packet@) && class != PacketClass::Latency ==> after.return_latency
            == before.return_latency,
        !frame_shaped(magic(), packet@) && class != PacketClass::Priority ==> after.return_priority
            == before.return_priority,
        !frame_shaped(magic(), packet@) && class != PacketClass::Bulk ==> after.return_bulk
            == before.return_bulk,
{
    if !frame_shaped(magic(), packet@) {
        let q = before.return_queue(class);
        let p = after.return_queue(class);
        assert(q.wf());
        if q.accepts() {
            law_forced_send_keeps_newest(
                q.items(),
                q.capacity(),
                (QueuedPacket { packet, epoch: q.epoch() as u64 }),
            );
        }
        assert(after.return_queue(PacketClass::Latency) == after.return_latency);
        assert(after.return_queue(PacketClass::Priority) == after.return_priority);
        assert(after.return_queue(PacketClass::Bulk) == after.return_bulk);
    }
}

/// What a batch that starts with a packet of a class holds, and what is left behind.
pub open spec fn batch_filled(
    before: &Dispatcher,
    after: &Dispatcher,
    first: Vec<u8>,
    class: PacketClass,
    priority_limit: usize,
    bulk_limit: usize,
    batch: Seq<Vec<u8>>,
) -> bool {
    let latency_waits = before.return_latency.items().len() > 0;
    let priority_waits = before.return_priority.items().len() > 0;
    match class {
        PacketClass::Latency => batch == seq![first] && after.return_priority
            == before.return_priority && after.return_bulk == before.return_bulk,
        PacketClass::Priority => after.return_bulk == before.return_bulk && if latency_waits {
            batch == seq![first] && after.return_priority == before.return_priority
        } else {
            batch_drained(
                before.return_priority,
                after.return_priority,
                first,
                batch,
                priority_limit,
            )
        },
        PacketClass::Bulk => after.return_priority == before.return_priority && if latency_waits
            || priority_waits {
            batch == seq![first] && after.return_bulk == before.return_bulk
        } else {
            batch_drained(before.return_bulk, after.return_bulk, first, batch, bulk_limit)
        },
    }
}

/// A batch never makes a more urgent packet wait: a latency packet leaves alone, and where a
/// more urgent packet waits, so does any other. A batch starts with its first packet, takes
/// others of its own class only, and has at most as many as its class allows.
pub proof fn law_batches_do_not_delay(
    before: &Dispatcher,
    after: &Dispatcher,
    first: Vec<u8>,
    class: PacketClass,
    priority_limit: usize,
    bulk_limit: usize,
    batch: Seq<Vec<u8>>,
)
    requires
        batch_filled(before, after, first, class, priority_limit, bulk_limit, batch),
        all_current(before.return_priority),
        all_current(before.return_bulk),
    ensures
        batch.len() >= 1,
        batch[0] == first,
        class == PacketClass::Latency ==> batch.len() == 1 && after.return_priority
            == before.return_priority && after.return_bulk == before.return_bulk,
        class != PacketClass::Latency && before.return_latency.items().len() > 0 ==> batch.len()
            == 1 && after.return_priority == before.return_priority && after.return_bulk
            == before.return_bulk,
        class == PacketClass::Bulk && before.return_priority.items().len() > 0 ==> batch.len() == 1
            && after.return_bulk == before.return_bulk,
        class == PacketClass::Priority ==> after.return_bulk == before.return_bulk && (batch.len()
            <= priority_limit || batch.len() == 1),
        class == PacketClass::Bulk ==> after.return_priority == before.return_priority && (
        batch.len() <= bulk_limit || batch.len() == 1),
        class == PacketClass::Priority && before.return_latency.items().len() == 0
            ==> after.return_priority.items().len() + batch.len() - 1
            == before.return_priority.items().len() && (batch.len() >= priority_limit
            || after.return_priority.items().len() == 0),
        class == PacketClass::Bulk && before.return_latency.items().len() == 0
            && before.return_priority.items().len() == 0 ==> after.return_bulk.items().len()
            + batch.len() - 1 == before.return_bulk.items().len() && (batch.len() >= bulk_limit
            || after.return_bulk.items().len() == 0),
{
    if class == PacketClass::Priority && before.return_latency.items().len() == 0 {
        law_batch_takes_the_oldest(
            before.return_priority,
            after.return_priority,
            first,
            batch,
            priority_limit,
        );
    }
    if class == PacketClass::Bulk && before.return_latency.items().len() == 0
        && before.return_priority.items().len() == 0 {
        law_batch_takes_the_oldest(
            before.return_bulk,
            after.return_bulk,
            first,
            batch,
            bulk_limit,
        );
    }
}

proof fn lemma_filter_keeps_all(ws: Seq<WorkerChannels>, keep: spec_fn(WorkerChannels) -> bool)
    requires
        forall|j: int| 0 <= j < ws.len() ==> keep(#[trigger] ws[j]),
    ensures
        ws.to_multiset().filter(keep) == ws.to_multiset(),
{
    broadcast use vstd::multiset::group_multiset_axioms;
    broadcast use vstd::seq_lib::group_to_multiset_ensures;

    let m = ws.to_multiset();
    assert forall|x: WorkerChannels| m.filter(keep).count(x) == m.count(x) by {
        if m.count(x) > 0 {
            assert(ws.contains(x));
            let j = choose|j: int| 0 <= j < ws.len() && ws[j] == x;
            assert(keep(ws[j]));
        }
    }
    assert(m.filter(keep) =~= m);
}

proof fn lemma_members_wf(a: Seq<WorkerChannels>, b: Seq<WorkerChannels>)
    requires
        a.to_multiset() == b.to_multiset(),
        forall|j: int| 0 <= j < a.len() ==> (#[trigger] a[j]).wf(),
    ensures
        forall|j: int| 0 <= j < b.len() ==> (#[trigger] b[j]).wf(),
{
    broadcast use vstd::seq_lib::group_to_multiset_ensures;

    assert forall|j: int| 0 <= j < b.len() implies (#[trigger] b[j]).wf() by {
        assert(b.contains(b[j]));
        assert(b.to_multiset().count(b[j]) > 0);
        assert(a.contains(b[j]));
        let k = choose|k: int| 0 <= k < a.len() && a[k] == b[j];
        assert(a[k].wf());
    }
}

/// An error in words.
pub open spec fn send_error_words(e: ProxySendError) -> Seq<char> {
    match e {
        ProxySendError::InvalidFrame => "invalid SOCKS5 frame"@,
        ProxySendError::TransportNotReady => "CSQTT transport is not ready"@,
        ProxySendError::CarrierUnavailable => "SOCKS5 carrier is unavailable"@,
        ProxySendError::CarrierReplaced => "SOCKS5 carrier was replaced"@,
        ProxySendError::PoolExhausted => "packet pool exhausted"@,
        ProxySendError::QueueUnavailable => "CSQTT transport queue is unavailable"@,
    }
}

/// Every error has words of its own.
pub proof fn law_send_errors_have_words(a: ProxySendError, b: ProxySendError)
    ensures
        send_error_words(a) == send_error_words(b) <==> a == b,
        a is InvalidFrame <==> send_error_words(a) == "invalid SOCKS5 frame"@,
        a is TransportNotReady <==> send_error_words(a) == "CSQTT transport is not ready"@,
        a is CarrierUnavailable <==> send_error_words(a) == "SOCKS5 carrier is unavailable"@,
        a is CarrierReplaced <==> send_error_words(a) == "SOCKS5 carrier was replaced"@,
        a is PoolExhausted <==> send_error_words(a) == "packet pool exhausted"@,
        a is QueueUnavailable <==> send_error_words(a) == "CSQTT transport queue is unavailable"@,
{
    reveal_strlit("invalid SOCKS5 frame");
    reveal_strlit("CSQTT transport is not ready");
    reveal_strlit("SOCKS5 carrier is unavailable");
    reveal_strlit("SOCKS5 carrier was replaced");
    reveal_strlit("packet pool exhausted");
    reveal_strlit("CSQTT transport queue is unavailable");
    assert("invalid SOCKS5 frame"@.len() != "CSQTT transport is not ready"@.len());
    assert("invalid SOCKS5 frame"@.len() != "SOCKS5 carrier is unavailable"@.len());
    assert("invalid SOCKS5 frame"@.len() != "SOCKS5 carrier was replaced"@.len());
    assert("invalid SOCKS5 frame"@.len() != "packet pool exhausted"@.len());
    assert("invalid SOCKS5 frame"@.len() != "CSQTT transport queue is unavailable"@.len());
    assert("CSQTT transport is not ready"@.len() != "SOCKS5 carrier is unavailable"@.len());
    assert("CSQTT transport is not ready"@.len() != "SOCKS5 carrier was replaced"@.len());
    assert("CSQTT transport is not ready"@.len() != "packet pool exhausted"@.len());
    assert("CSQTT transport is not ready"@.len() != "CSQTT transport queue is unavailable"@.len());
    assert("SOCKS5 carrier is unavailable"@.len() != "SOCKS5 carrier was replaced"@.len());
    assert("SOCKS5 carrier is unavailable"@.len() != "packet pool exhausted"@.len());
    assert("SOCKS5 carrier is unavailable"@.len() != "CSQTT transport queue is unavailable"@.len());
    assert("SOCKS5 carrier was replaced"@.len() != "packet pool exhausted"@.len());
    assert("SOCKS5 carrier was replaced"@.len() != "CSQTT transport queue is unavailable"@.len());
    assert("packet pool exhausted"@.len() != "CSQTT transport queue is unavailable"@.len());
}

} // verus!
