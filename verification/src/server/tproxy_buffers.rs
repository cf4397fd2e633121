//! Buffers of the transparent proxy: bounded pools, and the storage of datagrams that wait
//! for their relay.
use vstd::prelude::*;
use crate::client::packet_queue::MAX_QUEUE_CAPACITY;
use crate::server::tproxy::{
    PROXY_JUMBO_BUFFER_BYTES, PROXY_NORMAL_BUFFER_BYTES, PROXY_TCP_BUFFER_BYTES,
    ProxyBufferPoolSnapshot,
};
use crate::server::tproxy_quota::{
    DeviceQuotaRegistry, GLOBAL_JUMBO_BUFFER_LIMIT, GLOBAL_NORMAL_BUFFER_LIMIT,
    MAX_TCP_SESSION_LIMIT,
};
use bytes::BytesMut;
use crossbeam_queue::ArrayQueue;

verus! {

/// Most bytes that waiting datagrams take.
pub const PROXY_OPENING_BUFFER_LIMIT: usize = 524288;

/// Relay buffers that are kept for later; none are.
pub const PROXY_TCP_RETAINED_LIMIT: usize = 0;

/// Response buffers that are kept for later; none are.
pub const PROXY_NORMAL_RETAINED_LIMIT: usize = 0;

/// Large response buffers that are kept for later; none are.
pub const PROXY_JUMBO_RETAINED_LIMIT: usize = 0;

/// Longest buffer that can be asked for.
pub const MAX_BUFFER_BYTES: usize = 0x7fff_ffff;

/// The byte buffer of bytes.
#[verifier::external_type_specification]
#[verifier::external_body]
pub struct ExBytesMut(BytesMut);

/// What a buffer holds.
pub uninterp spec fn buffer_bytes(b: BytesMut) -> Seq<u8>;

/// `BytesMut::zeroed` makes a buffer of zeros.
#[verifier::external_body]
fn buffer_zeroed(len: usize) -> (r: BytesMut)
    requires
        len <= MAX_BUFFER_BYTES,
    ensures
        buffer_bytes(r) == zeros(len as nat),
{
    BytesMut::zeroed(len)
}

/// `BytesMut::len` counts the bytes.
#[verifier::external_body]
fn buffer_len(b: &BytesMut) -> (r: usize)
    ensures
        r == buffer_bytes(*b).len(),
{
    b.len()
}

/// `BytesMut::capacity` tells how many bytes the allocator gave, at least those that the
/// buffer holds. Nothing more is said of the number.
#[verifier::external_body]
fn buffer_capacity(b: &BytesMut) -> (r: usize)
    ensures
        r >= buffer_bytes(*b).len(),
{
    b.capacity()
}

/// Through `BytesMut::deref_mut` a buffer is overwritten with as many bytes as it holds.
#[verifier::external_body]
fn buffer_write(b: &mut BytesMut, data: &[u8])
    requires
        data@.len() == buffer_bytes(*old(b)).len(),
    ensures
        buffer_bytes(*final(b)) == data@,
{
    b.copy_from_slice(data)
}

/// Through `BytesMut::deref` the bytes of a buffer are read.
#[verifier::external_body]
pub(crate) fn buffer_slice(b: &BytesMut) -> (r: &[u8])
    ensures
        r@ == buffer_bytes(*b),
{
    b
}

/// The buffers that a queue holds, oldest first.
pub uninterp spec fn pool_items(q: ArrayQueue<BytesMut>) -> Seq<BytesMut>;

/// How many buffers a queue was made to hold.
pub uninterp spec fn pool_capacity(q: ArrayQueue<BytesMut>) -> nat;

/// Whether a queue has no room left.
pub open spec fn pool_full(q: ArrayQueue<BytesMut>) -> bool {
    pool_items(q).len() >= pool_capacity(q)
}

/// `ArrayQueue::new` makes an empty queue of the given capacity. It panics on a capacity of
/// zero and on one whose buffer cannot be addressed.
#[verifier::external_body]
fn pool_new(capacity: usize) -> (r: ArrayQueue<BytesMut>)
    requires
        0 < capacity <= MAX_QUEUE_CAPACITY,
    ensures
        pool_items(r) == Seq::<BytesMut>::empty(),
        pool_capacity(r) == capacity,
{
    ArrayQueue::new(capacity)
}

/// `ArrayQueue::push` appends a buffer, or hands it back where the queue is full.
#[verifier::external_body]
fn pool_push(q: &mut ArrayQueue<BytesMut>, b: BytesMut) -> (r: Result<(), BytesMut>)
    ensures
        pool_capacity(*final(q)) == pool_capacity(*old(q)),
        !pool_full(*old(q)) ==> r is Ok && pool_items(*final(q)) == pool_items(*old(q)).push(b),
        pool_full(*old(q)) ==> r is Err && r->Err_0 == b && pool_items(*final(q)) == pool_items(
            *old(q),
        ),
{
    q.push(b)
}

/// `ArrayQueue::pop` removes the oldest buffer.
#[verifier::external_body]
fn pool_pop(q: &mut ArrayQueue<BytesMut>) -> (r: Option<BytesMut>)
    ensures
        pool_capacity(*final(q)) == pool_capacity(*old(q)),
        pool_items(*old(q)).len() == 0 ==> r is None && pool_items(*final(q)) == pool_items(*old(q)),
        pool_items(*old(q)).len() > 0 ==> r == Some(pool_items(*old(q))[0]) && pool_items(*final(q))
            == pool_items(*old(q)).skip(1),
{
    q.pop()
}

/// So many zeros.
pub open spec fn zeros(n: nat) -> Seq<u8> {
    Seq::new(n, |i: int| 0u8)
}

// ---------------------------------------------------------------------------
// A pool of buffers of one size
// ---------------------------------------------------------------------------

/// A pool of buffers of one size. Buffers that come back are kept up to a limit.
pub struct BufferClassPool {
    pub queue: Option<ArrayQueue<BytesMut>>,
    pub allocated: usize,
    pub retained: usize,
    pub retained_limit: usize,
    pub limit: usize,
    pub size: usize,
}

impl BufferClassPool {
    /// The buffers that are kept, oldest first.
    pub open spec fn kept(&self) -> Seq<BytesMut> {
        match self.queue {
            Some(q) => pool_items(q),
            None => Seq::empty(),
        }
    }

    /// Kept buffers are counted, of the right size and within the limits.
    pub open spec fn wf(&self) -> bool {
        &&& self.retained == self.kept().len()
        &&& self.retained <= self.retained_limit
        &&& self.retained <= self.allocated
        &&& self.allocated <= self.limit
        &&& self.size <= MAX_BUFFER_BYTES
        &&& self.queue is Some <==> self.retained_limit != 0
        &&& self.queue is Some ==> pool_capacity(self.queue->0) == self.retained_limit
        &&& forall|i: int|
            0 <= i < self.kept().len() ==> buffer_bytes(#[trigger] self.kept()[i]).len()
                == self.size
    }

    /// Whether the pool was made like `other`.
    pub open spec fn same_setup(&self, other: &BufferClassPool) -> bool {
        self.retained_limit == other.retained_limit && self.limit == other.limit && self.size
            == other.size
    }

    /// An empty pool: at most `limit` buffers in all, of which at most `retained` are kept.
    pub fn new(limit: usize, retained: usize, size: usize) -> (r: Self)
        requires
            size <= MAX_BUFFER_BYTES,
            retained <= MAX_QUEUE_CAPACITY,
        ensures
            r.wf(),
            r.limit == limit,
            r.size == size,
            r.retained_limit == (if retained < limit {
                retained
            } else {
                limit
            }),
            r.allocated == 0,
            r.retained == 0,
    {
        let retained_limit: usize = if retained < limit {
            retained
        } else {
            limit
        };
        BufferClassPool {
            queue: if retained_limit != 0 {
                Some(pool_new(retained_limit))
            } else {
                None
            },
            allocated: 0,
            retained: 0,
            retained_limit,
            limit,
            size,
        }
    }

    /// Whether `r` is what taking a buffer out of `before` gives, and this is what it
    /// leaves: the buffer that was kept longest, or a new one while the limit allows.
    pub open spec fn took(&self, before: &BufferClassPool, r: Option<BytesMut>) -> bool {
        let kept = before.kept();
        &&& self.same_setup(before)
        &&& if kept.len() > 0 {
            &&& r == Some(kept[0])
            &&& self.kept() == kept.skip(1)
            &&& self.allocated == before.allocated
        } else if before.allocated < before.limit {
            &&& r is Some
            &&& buffer_bytes(r->0) == zeros(before.size as nat)
            &&& self.allocated == before.allocated + 1
            &&& self.kept().len() == 0
        } else {
            &&& r is None
            &&& self.allocated == before.allocated
            &&& self.kept().len() == 0
        }
    }

    /// Whether this is what giving a buffer back to `before` leaves: a buffer of the
    /// right size is kept while there is room.
    pub open spec fn gave_back(&self, before: &BufferClassPool, buffer: BytesMut) -> bool {
        &&& self.same_setup(before)
        &&& if buffer_bytes(buffer).len() == before.size && before.retained < before.retained_limit {
            &&& self.kept() == before.kept().push(buffer)
            &&& self.allocated == before.allocated
        } else {
            &&& self.kept() == before.kept()
            &&& self.allocated == before.allocated - 1
        }
    }

    /// Takes a kept buffer, or a new one while the limit allows.
    pub fn acquire(&mut self) -> (r: Option<BytesMut>)
        requires
            old(self).wf(),
        ensures
            final(self).wf(),
            final(self).took(old(self), r),
            r is Some ==> buffer_bytes(r->0).len() == old(self).size,
    {
        let ghost kept = self.kept();
        let mut queue: Option<ArrayQueue<BytesMut>> = None;
        core::mem::swap(&mut self.queue, &mut queue);
        if let Some(mut q) = queue {
            let popped = pool_pop(&mut q);
            self.queue = Some(q);
            if let Some(buffer) = popped {
                self.retained = self.retained - 1;
                proof {
                    assert(self.kept() == kept.skip(1));
                    assert(buffer_bytes(kept[0]).len() == self.size);
                    assert forall|i: int| 0 <= i < self.kept().len() implies buffer_bytes(
                        #[trigger] self.kept()[i],
                    ).len() == self.size by {
                        assert(kept[i + 1] == self.kept()[i]);
                    }
                }
                return Some(buffer);
            }
            proof {
                assert(self.kept() =~= kept);
            }
        }
        if self.allocated >= self.limit {
            return None;
        }
        self.allocated = self.allocated + 1;
        Some(buffer_zeroed(self.size))
    }

    /// Gives a buffer back. It is kept where it has the right size and there is room.
    pub fn release(&mut self, buffer: BytesMut)
        requires
            old(self).wf(),
            old(self).retained < old(self).allocated,
        ensures
            final(self).wf(),
            final(self).gave_back(old(self), buffer),
    {
        let ghost kept = self.kept();
        if buffer_len(&buffer) != self.size || self.retained_limit == 0 {
            self.allocated = self.allocated - 1;
            return ;
        }
        if self.retained >= self.retained_limit {
            self.allocated = self.allocated - 1;
            return ;
        }
        let mut queue: Option<ArrayQueue<BytesMut>> = None;
        core::mem::swap(&mut self.queue, &mut queue);
        match queue {
            None => {
                self.allocated = self.allocated - 1;
            },
            Some(mut q) => {
                match pool_push(&mut q, buffer) {
                    Ok(()) => {
                        self.retained = self.retained + 1;
                    },
                    Err(_) => {
                        self.allocated = self.allocated - 1;
                    },
                }
                self.queue = Some(q);
                proof {
                    assert(self.kept() == kept.push(buffer));
                    assert forall|i: int| 0 <= i < self.kept().len() implies buffer_bytes(
                        #[trigger] self.kept()[i],
                    ).len() == self.size by {
                        if i < kept.len() {
                            assert(kept[i] == self.kept()[i]);
                        }
                    }
                }
            },
        }
    }

    /// Drops all kept buffers.
    pub fn trim(&mut self)
        requires
            old(self).wf(),
        ensures
            final(self).wf(),
            final(self).same_setup(old(self)),
            final(self).kept().len() == 0,
            final(self).allocated == old(self).allocated - old(self).retained,
    {
        let mut queue: Option<ArrayQueue<BytesMut>> = None;
        let ghost before = *self;
        core::mem::swap(&mut self.queue, &mut queue);
        if let Some(mut q) = queue {
            loop
                invariant
                    before == *old(self),
                    before.wf(),
                    self.queue is None,
                    self.retained_limit == before.retained_limit,
                    self.limit == before.limit,
                    self.size == before.size,
                    before.retained_limit != 0,
                    pool_capacity(q) == before.retained_limit,
                    self.retained == pool_items(q).len(),
                    self.retained <= before.retained,
                    self.allocated == before.allocated - before.retained + self.retained,
                ensures
                    pool_items(q).len() == 0,
                decreases pool_items(q).len(),
            {
                if pool_pop(&mut q).is_none() {
                    break ;
                }
                self.retained = self.retained - 1;
                self.allocated = self.allocated - 1;
            }
            self.queue = Some(q);
        }
    }

    /// How many buffers there are, and how many of them are kept.
    pub fn snapshot(&self) -> (r: (usize, usize))
        ensures
            r == (self.allocated, self.retained),
    {
        (self.allocated, self.retained)
    }
}

// ---------------------------------------------------------------------------
// The pools of the proxy
// ---------------------------------------------------------------------------

/// The kind of a buffer.
#[derive(Clone, Copy, Debug, PartialEq, Eq, Structural)]
pub enum BufferClass {
    Tcp,
    Normal,
    Jumbo,
}

/// A buffer in use, with the device whose share it counts against.
pub struct ProxyBufferLease {
    pub buffer: BytesMut,
    pub class: BufferClass,
    pub device: Option<usize>,
}

/// The buffer of a lease, if there is one.
pub open spec fn leased_buffer(lease: Option<ProxyBufferLease>) -> Option<BytesMut> {
    match lease {
        Some(l) => Some(l.buffer),
        None => None,
    }
}

/// The kind of a response buffer.
pub open spec fn udp_class(jumbo: bool) -> BufferClass {
    if jumbo {
        BufferClass::Jumbo
    } else {
        BufferClass::Normal
    }
}

/// The pools of all kinds.
pub struct ProxyBufferPool {
    pub tcp: BufferClassPool,
    pub normal: BufferClassPool,
    pub jumbo: BufferClassPool,
}

impl ProxyBufferPool {
    /// All pools are in order.
    pub open spec fn wf(&self) -> bool {
        &&& self.tcp.wf()
        &&& self.normal.wf()
        &&& self.jumbo.wf()
        &&& self.tcp.size == PROXY_TCP_BUFFER_BYTES
        &&& self.normal.size == PROXY_NORMAL_BUFFER_BYTES
        &&& self.jumbo.size == PROXY_JUMBO_BUFFER_BYTES
    }

    /// The pool of a kind.
    pub open spec fn class_pool(&self, class: BufferClass) -> BufferClassPool {
        match class {
            BufferClass::Tcp => self.tcp,
            BufferClass::Normal => self.normal,
            BufferClass::Jumbo => self.jumbo,
        }
    }

    /// Empty pools: two relay buffers for every connection at the highest limit, and the
    /// response buffers of all devices.
    pub fn new() -> (r: Self)
        ensures
            r.wf(),
            r.tcp.limit == MAX_TCP_SESSION_LIMIT * 2,
            r.tcp.retained_limit == PROXY_TCP_RETAINED_LIMIT,
            r.normal.limit == GLOBAL_NORMAL_BUFFER_LIMIT,
            r.normal.retained_limit == PROXY_NORMAL_RETAINED_LIMIT,
            r.jumbo.limit == GLOBAL_JUMBO_BUFFER_LIMIT,
            r.jumbo.retained_limit == PROXY_JUMBO_RETAINED_LIMIT,
            r.tcp.allocated == 0,
            r.normal.allocated == 0,
            r.jumbo.allocated == 0,
    {
        ProxyBufferPool {
            tcp: BufferClassPool::new(
                MAX_TCP_SESSION_LIMIT * 2,
                PROXY_TCP_RETAINED_LIMIT,
                PROXY_TCP_BUFFER_BYTES,
            ),
            normal: BufferClassPool::new(
                GLOBAL_NORMAL_BUFFER_LIMIT,
                PROXY_NORMAL_RETAINED_LIMIT,
                PROXY_NORMAL_BUFFER_BYTES,
            ),
            jumbo: BufferClassPool::new(
                GLOBAL_JUMBO_BUFFER_LIMIT,
                PROXY_JUMBO_RETAINED_LIMIT,
                PROXY_JUMBO_BUFFER_BYTES,
            ),
        }
    }

    /// Takes a relay buffer.
    pub fn acquire_tcp(&mut self) -> (r: Option<ProxyBufferLease>)
        requires
            old(self).wf(),
        ensures
            final(self).wf(),
            final(self).normal == old(self).normal,
            final(self).jumbo == old(self).jumbo,
            final(self).tcp.took(&old(self).tcp, leased_buffer(r)),
            r is Some ==> {
                &&& r->0.class == BufferClass::Tcp
                &&& r->0.device is None
                &&& buffer_bytes(r->0.buffer).len() == PROXY_TCP_BUFFER_BYTES
            },
    {
        match self.tcp.acquire() {
            Some(buffer) => Some(
                ProxyBufferLease { buffer, class: BufferClass::Tcp, device: None },
            ),
            None => None,
        }
    }

    /// Takes a response buffer for a device, where the device's share and the pool allow
    /// it.
    pub fn acquire_udp(
        &mut self,
        registry: &mut DeviceQuotaRegistry,
        device: usize,
        jumbo: bool,
    ) -> (r: Option<ProxyBufferLease>)
        requires
            old(self).wf(),
            old(registry).wf(),
            device < old(registry).quotas@.len(),
        ensures
            final(self).wf(),
            final(registry).wf(),
            forall|c: BufferClass|
                c != udp_class(jumbo) ==> #[trigger] final(self).class_pool(c) == old(
                    self
                ).class_pool(c),
            if old(registry).buffer_allowed(device as int, jumbo) {
                final(self).class_pool(udp_class(jumbo)).took(
                    &old(self).class_pool(udp_class(jumbo)),
                    leased_buffer(r),
                )
            } else {
                r is None && *final(self) == *old(self)
            },
            match r {
                Some(lease) => {
                    &&& lease.class == udp_class(jumbo)
                    &&& lease.device == Some(device)
                    &&& buffer_bytes(lease.buffer).len() == old(self).class_pool(
                        udp_class(jumbo),
                    ).size
                    &&& final(registry).buffer_admitted(old(registry), device as int, jumbo)
                },
                None => {
                    &&& final(registry).same_devices(old(registry))
                    &&& final(registry).unchanged(old(registry))
                    &&& final(registry).capacity == old(registry).capacity
                },
            },
    {
        if !registry.try_acquire_buffer(device, jumbo) {
            return None;
        }
        let taken = if jumbo {
            self.jumbo.acquire()
        } else {
            self.normal.acquire()
        };
        match taken {
            Some(buffer) => Some(
                ProxyBufferLease {
                    buffer,
                    class: if jumbo {
                        BufferClass::Jumbo
                    } else {
                        BufferClass::Normal
                    },
                    device: Some(device),
                },
            ),
            None => {
                registry.release_buffer(device, jumbo);
                proof {
                    assert(registry.quotas@ =~= old(registry).quotas@);
                }
                None
            },
        }
    }

    /// Gives a buffer back to its pool, and the share back to its device.
    pub fn release(&mut self, registry: &mut DeviceQuotaRegistry, lease: ProxyBufferLease)
        requires
            old(self).wf(),
            old(registry).wf(),
            lease.device is Some ==> lease.device->0 < old(registry).quotas@.len(),
            old(self).class_pool(lease.class).retained < old(self).class_pool(
                lease.class,
            ).allocated,
        ensures
            final(self).wf(),
            final(registry).wf(),
            forall|c: BufferClass|
                c != lease.class ==> #[trigger] final(self).class_pool(c) == old(self).class_pool(
                    c,
                ),
            final(self).class_pool(lease.class).gave_back(
                &old(self).class_pool(lease.class),
                lease.buffer,
            ),
            if lease.class == BufferClass::Tcp || lease.device is None {
                *final(registry) == *old(registry)
            } else {
                final(registry).buffer_released(
                    old(registry),
                    lease.device->0 as int,
                    lease.class == BufferClass::Jumbo,
                )
            },
    {
        match lease.class {
            BufferClass::Tcp => {
                self.tcp.release(lease.buffer);
            },
            BufferClass::Normal => {
                self.normal.release(lease.buffer);
                if let Some(device) = lease.device {
                    registry.release_buffer(device, false);
                }
            },
            BufferClass::Jumbo => {
                self.jumbo.release(lease.buffer);
                if let Some(device) = lease.device {
                    registry.release_buffer(device, true);
                }
            },
        }
    }

    /// Drops all kept buffers.
    pub fn trim(&mut self)
        requires
            old(self).wf(),
        ensures
            final(self).wf(),
            final(self).tcp.same_setup(&old(self).tcp),
            final(self).normal.same_setup(&old(self).normal),
            final(self).jumbo.same_setup(&old(self).jumbo),
            final(self).tcp.kept().len() == 0,
            final(self).normal.kept().len() == 0,
            final(self).jumbo.kept().len() == 0,
            final(self).tcp.allocated == old(self).tcp.allocated - old(self).tcp.retained,
            final(self).normal.allocated == old(self).normal.allocated - old(self).normal.retained,
            final(self).jumbo.allocated == old(self).jumbo.allocated - old(self).jumbo.retained,
    {
        self.tcp.trim();
        self.normal.trim();
        self.jumbo.trim();
    }

    /// How the pools are used.
    pub fn snapshot(&self) -> (r: ProxyBufferPoolSnapshot)
        ensures
            r == (ProxyBufferPoolSnapshot {
                tcp_allocated: self.tcp.allocated,
                tcp_retained: self.tcp.retained,
                normal_allocated: self.normal.allocated,
                normal_retained: self.normal.retained,
                jumbo_allocated: self.jumbo.allocated,
                jumbo_retained: self.jumbo.retained,
            }),
    {
        let (tcp_allocated, tcp_retained) = self.tcp.snapshot();
        let (normal_allocated, normal_retained) = self.normal.snapshot();
        let (jumbo_allocated, jumbo_retained) = self.jumbo.snapshot();
        ProxyBufferPoolSnapshot {
            tcp_allocated,
            tcp_retained,
            normal_allocated,
            normal_retained,
            jumbo_allocated,
            jumbo_retained,
        }
    }
}

// ---------------------------------------------------------------------------
// Waiting datagrams
// ---------------------------------------------------------------------------

/// Counts the bytes of all waiting datagrams.
pub struct OpeningBufferPool {
    pub allocated_bytes: usize,
}

/// The storage of a waiting datagram, with the bytes that it counts for.
pub struct OpeningBufferLease {
    pub storage: BytesMut,
    pub charged: usize,
}

impl OpeningBufferPool {
    /// The ceiling holds.
    pub open spec fn wf(&self) -> bool {
        self.allocated_bytes <= PROXY_OPENING_BUFFER_LIMIT
    }

    /// Nothing waits.
    pub fn new() -> (r: Self)
        ensures
            r.wf(),
            r.allocated_bytes == 0,
    {
        OpeningBufferPool { allocated_bytes: 0 }
    }

    /// Counts bytes, where the ceiling allows it.
    pub fn charge(&mut self, capacity: usize) -> (r: bool)
        requires
            old(self).wf(),
        ensures
            final(self).wf(),
            charged(old(self).allocated_bytes, final(self).allocated_bytes, capacity, r),
    {
        if capacity > PROXY_OPENING_BUFFER_LIMIT - self.allocated_bytes {
            return false;
        }
        self.allocated_bytes = self.allocated_bytes + capacity;
        true
    }

    /// Lends storage of some capacity, where the ceiling allows that capacity.
    pub fn lend(&mut self, storage: BytesMut, capacity: usize) -> (r: Option<OpeningBufferLease>)
        requires
            old(self).wf(),
        ensures
            final(self).wf(),
            charged(old(self).allocated_bytes, final(self).allocated_bytes, capacity, r is Some),
            r is Some ==> r == Some(OpeningBufferLease { storage, charged: capacity }),
    {
        if self.charge(capacity) {
            Some(OpeningBufferLease { storage, charged: capacity })
        } else {
            None
        }
    }

    /// Takes storage of zeros for `len` bytes, where the ceiling allows what the allocator
    /// gives for it. How much that is beyond `len` bytes is not said.
    pub fn acquire(&mut self, len: usize) -> (r: Option<OpeningBufferLease>)
        requires
            old(self).wf(),
            len <= MAX_BUFFER_BYTES,
        ensures
            final(self).wf(),
            old(self).allocated_bytes + len > PROXY_OPENING_BUFFER_LIMIT ==> r is None,
            r is None ==> final(self).allocated_bytes == old(self).allocated_bytes,
            r is Some ==> {
                &&& buffer_bytes(r->0.storage) == zeros(len as nat)
                &&& r->0.charged >= len
                &&& final(self).allocated_bytes == old(self).allocated_bytes + r->0.charged
            },
    {
        let storage = buffer_zeroed(len);
        let capacity: usize = buffer_capacity(&storage);
        self.lend(storage, capacity)
    }

    /// Gives storage back.
    pub fn release(&mut self, lease: OpeningBufferLease)
        requires
            old(self).wf(),
        ensures
            final(self).wf(),
            final(self).allocated_bytes == (if lease.charged > old(self).allocated_bytes {
                0
            } else {
                old(self).allocated_bytes - lease.charged
            }),
    {
        self.allocated_bytes = self.allocated_bytes.saturating_sub(lease.charged);
    }

    /// Bytes of all waiting datagrams.
    pub fn allocated_bytes(&self) -> (r: usize)
        ensures
            r == self.allocated_bytes,
    {
        self.allocated_bytes
    }
}

impl OpeningBufferLease {
    /// Stores a datagram of the storage's length.
    pub fn fill(&mut self, payload: &[u8])
        requires
            payload@.len() == buffer_bytes(old(self).storage).len(),
        ensures
            buffer_bytes(final(self).storage) == payload@,
            final(self).charged == old(self).charged,
    {
        buffer_write(&mut self.storage, payload);
    }

    /// The stored datagram.
    pub fn as_slice(&self) -> (r: &[u8])
        ensures
            r@ == buffer_bytes(self.storage),
    {
        buffer_slice(&self.storage)
    }
}

/// A buffer that was kept is lent again, the one that waits longest first; only then is a
/// new one made, empty, and never more than the limit.
pub proof fn law_kept_buffers_come_first(
    before: &BufferClassPool,
    after: &BufferClassPool,
    r: Option<BytesMut>,
)
    requires
        before.wf(),
        after.took(before, r),
    ensures
        before.kept().len() > 0 ==> r == Some(before.kept()[0]) && after.kept()
            == before.kept().skip(1) && after.allocated == before.allocated,
        before.kept().len() == 0 && before.allocated < before.limit ==> (r matches Some(b)
            && buffer_bytes(b).len() == before.size && forall|i: int|
            0 <= i < before.size ==> #[trigger] buffer_bytes(b)[i] == 0) && after.allocated
            == before.allocated + 1,
        r is None <==> before.kept().len() == 0 && before.allocated == before.limit,
        after.allocated <= before.limit,
        after.limit == before.limit && after.size == before.size,
{
}

/// A buffer that comes back is kept where it has the right size and there is room, behind
/// the others; else it is freed, and another may be made in its place.
pub proof fn law_returned_buffers_are_kept_or_freed(
    before: &BufferClassPool,
    after: &BufferClassPool,
    buffer: BytesMut,
)
    requires
        before.wf(),
        before.retained < before.allocated,
        after.gave_back(before, buffer),
    ensures
        buffer_bytes(buffer).len() == before.size && before.kept().len() < before.retained_limit
            ==> after.kept().drop_last() == before.kept() && after.kept().last() == buffer
            && after.allocated == before.allocated,
        buffer_bytes(buffer).len() != before.size || before.kept().len() == before.retained_limit
            ==> after.kept() == before.kept() && after.allocated == before.allocated - 1,
{
    assert(before.kept().push(buffer).drop_last() =~= before.kept());
}

/// Every class of buffers has a pool of its own, and flows take the size that they ask for.
pub proof fn law_classes_have_their_own_pools(p: &ProxyBufferPool)
    ensures
        p.class_pool(BufferClass::Tcp) == p.tcp,
        p.class_pool(BufferClass::Normal) == p.normal,
        p.class_pool(BufferClass::Jumbo) == p.jumbo,
        udp_class(true) == BufferClass::Jumbo,
        udp_class(false) == BufferClass::Normal,
        p.wf() ==> p.tcp.size == 16384 && p.normal.size == 4096 && p.jumbo.size == 65535,
{
}

/// Whether bytes were counted, where the ceiling allows it.
pub open spec fn charged(before: usize, after: usize, capacity: usize, r: bool) -> bool {
    &&& r == (before + capacity <= PROXY_OPENING_BUFFER_LIMIT)
    &&& after == before + (if r {
        capacity as int
    } else {
        0
    })
}

/// What waits for a relay has half a mebibyte: within it every byte is counted, and beyond it
/// nothing is.
pub proof fn law_waiting_bytes_are_counted(before: usize, after: usize, capacity: usize, r: bool)
    requires
        before <= 524288,
        charged(before, after, capacity, r),
    ensures
        before + capacity <= 524288 <==> r,
        r ==> after - before == capacity,
        !r ==> after == before,
        after <= 524288,
{
}

/// Lending and giving back leave a pool's limits and the size of its buffers alone.
pub proof fn law_pools_keep_their_limits(
    before: BufferClassPool,
    after: BufferClassPool,
    r: Option<BytesMut>,
    buffer: BytesMut,
)
    requires
        after.took(&before, r) || after.gave_back(&before, buffer),
    ensures
        after.limit == before.limit,
        after.retained_limit == before.retained_limit,
        after.size == before.size,
{
}

} // verus!
