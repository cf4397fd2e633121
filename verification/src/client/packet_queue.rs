//! Bounded packet queues with epochs: what was queued before a suspension is never
//! delivered after it.
use vstd::prelude::*;
use crossbeam_queue::ArrayQueue;

verus! {

/// A packet with the epoch in which its sender found the queue active.
pub struct QueuedPacket {
    pub packet: Vec<u8>,
    pub epoch: u64,
}

/// Most slots that a queue may be made with.
pub const MAX_QUEUE_CAPACITY: usize = 0x100_0000;

/// The bounded queue of crossbeam.
#[verifier::external_type_specification]
#[verifier::external_body]
#[verifier::reject_recursive_types(T)]
pub struct ExArrayQueue<T>(ArrayQueue<T>);

/// What a queue holds, oldest first.
pub uninterp spec fn queue_items(q: ArrayQueue<QueuedPacket>) -> Seq<QueuedPacket>;

/// How many items a queue was made to hold.
pub uninterp spec fn queue_capacity(q: ArrayQueue<QueuedPacket>) -> nat;

/// `ArrayQueue::new` makes an empty queue of the given capacity. It panics on a
/// capacity of zero and on one whose buffer cannot be addressed.
#[verifier::external_body]
fn queue_new(capacity: usize) -> (r: ArrayQueue<QueuedPacket>)
    requires
        0 < capacity <= MAX_QUEUE_CAPACITY,
    ensures
        queue_items(r) == Seq::<QueuedPacket>::empty(),
        queue_capacity(r) == capacity,
{
    ArrayQueue::new(capacity)
}

/// Whether a queue has no room left.
pub open spec fn queue_full(q: ArrayQueue<QueuedPacket>) -> bool {
    queue_items(q).len() >= queue_capacity(q)
}

/// `ArrayQueue::push` appends an item, or hands it back where the queue is full.
#[verifier::external_body]
fn queue_push(q: &mut ArrayQueue<QueuedPacket>, item: QueuedPacket) -> (r: Result<
    (),
    QueuedPacket,
>)
    ensures
        queue_capacity(*final(q)) == queue_capacity(*old(q)),
        !queue_full(*old(q)) ==> r is Ok && queue_items(*final(q)) == queue_items(*old(q)).push(
            item,
        ),
        queue_full(*old(q)) ==> r is Err && r->Err_0 == item && queue_items(*final(q))
            == queue_items(*old(q)),
{
    q.push(item)
}

/// `ArrayQueue::force_push` appends an item; a full queue gives up its oldest item
/// for it.
#[verifier::external_body]
fn queue_force_push(q: &mut ArrayQueue<QueuedPacket>, item: QueuedPacket) -> (r: Option<
    QueuedPacket,
>)
    requires
        queue_items(*old(q)).len() <= queue_capacity(*old(q)),
        queue_capacity(*old(q)) > 0,
    ensures
        queue_capacity(*final(q)) == queue_capacity(*old(q)),
        !queue_full(*old(q)) ==> r is None && queue_items(*final(q)) == queue_items(*old(q)).push(
            item,
        ),
        queue_full(*old(q)) ==> r == Some(queue_items(*old(q))[0]) && queue_items(*final(q))
            == queue_items(*old(q)).skip(1).push(item),
{
    q.force_push(item)
}

/// `ArrayQueue::pop` removes the oldest item.
#[verifier::external_body]
fn queue_pop(q: &mut ArrayQueue<QueuedPacket>) -> (r: Option<QueuedPacket>)
    ensures
        queue_capacity(*final(q)) == queue_capacity(*old(q)),
        queue_items(*old(q)).len() == 0 ==> r is None && queue_items(*final(q)) == queue_items(
            *old(q),
        ),
        queue_items(*old(q)).len() > 0 ==> r == Some(queue_items(*old(q))[0]) && queue_items(
            *final(q),
        ) == queue_items(*old(q)).skip(1),
{
    q.pop()
}

/// `ArrayQueue::len` counts the items.
#[verifier::external_body]
fn queue_len(q: &ArrayQueue<QueuedPacket>) -> (r: usize)
    ensures
        r == queue_items(*q).len(),
{
    q.len()
}

/// `ArrayQueue::capacity` tells the capacity that the queue was made with.
#[verifier::external_body]
fn queue_room(q: &ArrayQueue<QueuedPacket>) -> (r: usize)
    ensures
        r == queue_capacity(*q),
{
    q.capacity()
}

/// The items from the first one of the given epoch on.
pub open spec fn skip_stale(items: Seq<QueuedPacket>, epoch: nat) -> Seq<QueuedPacket>
    decreases items.len(),
{
    if items.len() == 0 || items[0].epoch == epoch {
        items
    } else {
        skip_stale(items.skip(1), epoch)
    }
}

/// The items after one more is appended to a queue that gives up its oldest item
/// where it is full.
pub open spec fn force_pushed(
    items: Seq<QueuedPacket>,
    capacity: nat,
    item: QueuedPacket,
) -> Seq<QueuedPacket> {
    if items.len() < capacity {
        items.push(item)
    } else {
        items.skip(1).push(item)
    }
}

/// Epochs wrap around below two to the power 63.
pub const EPOCHS: u64 = 0x8000_0000_0000_0000;

/// One end-to-end packet queue: its sender count, its receiver, and whether it
/// accepts packets at present.
pub struct PacketQueue {
    queue: ArrayQueue<QueuedPacket>,
    state: u64,
    senders: usize,
    receiver_open: bool,
}

/// What a receiver learns when it asks for a packet without waiting.
pub enum RecvPoll {
    /// The next packet.
    Packet(Vec<u8>),
    /// Nothing is queued and no sender is left.
    Closed,
    /// Nothing is queued at present.
    Pending,
}

impl PacketQueue {
    /// What is queued, oldest first.
    pub closed spec fn items(&self) -> Seq<QueuedPacket> {
        queue_items(self.queue)
    }

    /// How many packets fit.
    pub closed spec fn capacity(&self) -> nat {
        queue_capacity(self.queue)
    }

    /// The current epoch.
    pub closed spec fn epoch(&self) -> nat {
        (self.state / 2) as nat
    }

    /// Whether packets are accepted.
    pub closed spec fn active(&self) -> bool {
        self.state % 2 == 1
    }

    /// How many senders there are.
    pub closed spec fn sender_count(&self) -> nat {
        self.senders as nat
    }

    /// Whether the receiver is still there.
    pub closed spec fn open(&self) -> bool {
        self.receiver_open
    }

    /// The queue never holds more than it has room for.
    pub open spec fn wf(&self) -> bool {
        &&& self.items().len() <= self.capacity()
        &&& self.capacity() > 0
        &&& self.epoch() < EPOCHS
    }

    /// Whether a packet is taken at all.
    pub open spec fn accepts(&self) -> bool {
        self.open() && self.active()
    }

    /// What is left for the receiver: nothing while the queue is suspended, else the
    /// items from the first one of the current epoch on.
    pub open spec fn deliverable(&self) -> Seq<QueuedPacket> {
        if self.active() {
            skip_stale(self.items(), self.epoch())
        } else {
            Seq::empty()
        }
    }

    /// Whether everything but the items is as in `other`.
    pub open spec fn same_setup(&self, other: &PacketQueue) -> bool {
        &&& self.capacity() == other.capacity()
        &&& self.epoch() == other.epoch()
        &&& self.active() == other.active()
        &&& self.sender_count() == other.sender_count()
        &&& self.open() == other.open()
    }

    /// The epoch under which a packet may be sent now.
    pub fn stamp(&self) -> (r: Option<u64>)
        ensures
            r == if self.accepts() {
                Some(self.epoch() as u64)
            } else {
                None
            },
    {
        if !self.receiver_open || self.state % 2 == 0 {
            None
        } else {
            Some(self.state / 2)
        }
    }

    /// Queues a packet under an epoch that was read before; a full queue refuses it.
    pub fn push_stamped(&mut self, packet: Vec<u8>, epoch: u64) -> (r: Result<(), Vec<u8>>)
        requires
            old(self).wf(),
        ensures
            final(self).wf(),
            final(self).same_setup(old(self)),
            old(self).items().len() < old(self).capacity() ==> r is Ok && final(self).items()
                == old(self).items().push(QueuedPacket { packet, epoch }),
            old(self).items().len() >= old(self).capacity() ==> r == Err::<(), Vec<u8>>(packet)
                && final(self).items() == old(self).items(),
    {
        match queue_push(&mut self.queue, QueuedPacket { packet, epoch }) {
            Ok(()) => Ok(()),
            Err(item) => Err(item.packet),
        }
    }

    /// Queues a packet under an epoch that was read before; a full queue gives up its
    /// oldest packet for it.
    pub fn force_push_stamped(&mut self, packet: Vec<u8>, epoch: u64)
        requires
            old(self).wf(),
        ensures
            final(self).wf(),
            final(self).same_setup(old(self)),
            final(self).items() == force_pushed(
                old(self).items(),
                old(self).capacity(),
                (QueuedPacket { packet, epoch }),
            ),
    {
        let _dropped = queue_force_push(&mut self.queue, QueuedPacket { packet, epoch });
    }

    /// Sends a packet; refuses it where the queue is full or not accepting.
    pub fn try_send(&mut self, packet: Vec<u8>) -> (r: Result<(), Vec<u8>>)
        requires
            old(self).wf(),
        ensures
            final(self).wf(),
            final(self).same_setup(old(self)),
            r is Ok <==> old(self).accepts() && old(self).items().len() < old(self).capacity(),
            r is Ok ==> final(self).items() == old(self).items().push(
                (QueuedPacket { packet, epoch: old(self).epoch() as u64 }),
            ),
            r is Err ==> r == Err::<(), Vec<u8>>(packet) && final(self).items() == old(self).items(),
    {
        match self.stamp() {
            None => Err(packet),
            Some(epoch) => self.push_stamped(packet, epoch),
        }
    }

    /// Sends a packet; a full queue gives up its oldest packet for it.
    pub fn force_send(&mut self, packet: Vec<u8>) -> (r: Result<(), Vec<u8>>)
        requires
            old(self).wf(),
        ensures
            final(self).wf(),
            final(self).same_setup(old(self)),
            r is Ok <==> old(self).accepts(),
            r is Ok ==> final(self).items() == force_pushed(
                old(self).items(),
                old(self).capacity(),
                (QueuedPacket { packet, epoch: old(self).epoch() as u64 }),
            ),
            r is Err ==> r == Err::<(), Vec<u8>>(packet) && final(self).items() == old(self).items(),
    {
        match self.stamp() {
            None => Err(packet),
            Some(epoch) => {
                self.force_push_stamped(packet, epoch);
                Ok(())
            },
        }
    }

    /// Takes the next packet of the current epoch; packets of other epochs are
    /// dropped on the way.
    pub fn try_recv(&mut self) -> (r: Option<Vec<u8>>)
        requires
            old(self).wf(),
        ensures
            final(self).wf(),
            final(self).same_setup(old(self)),
            old(self).deliverable().len() == 0 ==> r is None && final(self).items().len() == 0,
            old(self).deliverable().len() > 0 ==> r == Some(old(self).deliverable()[0].packet)
                && final(self).items() == old(self).deliverable().skip(1),
    {
        loop
            invariant
                self.wf(),
                self.same_setup(old(self)),
                old(self).active() ==> skip_stale(self.items(), self.epoch()) == skip_stale(
                    old(self).items(),
                    self.epoch(),
                ),
            decreases self.items().len(),
        {
            match queue_pop(&mut self.queue) {
                None => {
                    return None;
                },
                Some(item) => {
                    if self.state % 2 == 1 && item.epoch == self.state / 2 {
                        return Some(item.packet);
                    }
                },
            }
        }
    }

    /// Asks for the next packet without waiting.
    pub fn poll_recv(&mut self) -> (r: RecvPoll)
        requires
            old(self).wf(),
        ensures
            final(self).wf(),
            final(self).same_setup(old(self)),
            old(self).deliverable().len() > 0 ==> r == RecvPoll::Packet(
                old(self).deliverable()[0].packet,
            ) && final(self).items() == old(self).deliverable().skip(1),
            old(self).deliverable().len() == 0 ==> final(self).items().len() == 0 && r == (
            if old(self).sender_count() == 0 {
                RecvPoll::Closed
            } else {
                RecvPoll::Pending
            }),
    {
        match self.try_recv() {
            Some(packet) => RecvPoll::Packet(packet),
            None => {
                if self.senders == 0 {
                    RecvPoll::Closed
                } else {
                    RecvPoll::Pending
                }
            },
        }
    }

    /// Drops everything that is queued.
    pub fn purge(&mut self)
        requires
            old(self).wf(),
        ensures
            final(self).wf(),
            final(self).same_setup(old(self)),
            final(self).items().len() == 0,
    {
        loop
            invariant
                self.wf(),
                self.same_setup(old(self)),
            ensures
                self.items().len() == 0,
            decreases self.items().len(),
        {
            if queue_pop(&mut self.queue).is_none() {
                break;
            }
        }
    }

    /// Whether this is `before` in its next epoch, empty.
    pub open spec fn resumed(&self, before: &PacketQueue) -> bool {
        &&& self.capacity() == before.capacity()
        &&& self.sender_count() == before.sender_count()
        &&& self.open() == before.open()
        &&& self.active()
        &&& self.epoch() == (before.epoch() + 1) % (EPOCHS as nat)
        &&& self.items().len() == 0
    }

    /// Whether this is `before` at rest, empty.
    pub open spec fn suspended(&self, before: &PacketQueue) -> bool {
        &&& self.capacity() == before.capacity()
        &&& self.sender_count() == before.sender_count()
        &&& self.open() == before.open()
        &&& !self.active()
        &&& self.epoch() == before.epoch()
        &&& self.items().len() == 0
    }

    /// Starts the next epoch with an empty queue.
    pub fn resume(&mut self)
        requires
            old(self).wf(),
        ensures
            final(self).wf(),
            final(self).resumed(old(self)),
    {
        let epoch: u64 = if self.state / 2 + 1 == EPOCHS {
            0
        } else {
            self.state / 2 + 1
        };
        self.state = epoch * 2;
        self.purge();
        self.state = epoch * 2 + 1;
    }

    /// Stops accepting and delivering, and drops what is queued.
    pub fn suspend(&mut self)
        requires
            old(self).wf(),
        ensures
            final(self).wf(),
            final(self).suspended(old(self)),
    {
        self.state = self.state / 2 * 2;
        self.purge();
    }

    /// Whether nothing is queued and no sender is left.
    pub fn is_closed(&self) -> (r: bool)
        ensures
            r == (self.sender_count() == 0 && self.items().len() == 0),
    {
        self.senders == 0 && queue_len(&self.queue) == 0
    }

    /// Whether anything is queued.
    pub fn has_queued_packet(&self) -> (r: bool)
        ensures
            r == (self.items().len() > 0),
    {
        queue_len(&self.queue) != 0
    }

    /// Whether a packet is taken without giving one up.
    pub fn has_room(&self) -> (r: bool)
        ensures
            r == (self.accepts() && self.items().len() < self.capacity()),
    {
        self.receiver_open && self.state % 2 == 1 && queue_len(&self.queue) < queue_room(&self.queue)
    }

    /// How many packets are queued.
    pub fn len(&self) -> (r: usize)
        ensures
            r == self.items().len(),
    {
        queue_len(&self.queue)
    }

    /// Counts one more sender.
    pub fn add_sender(&mut self)
        requires
            old(self).wf(),
            old(self).sender_count() < usize::MAX,
        ensures
            final(self).wf(),
            final(self).sender_count() == old(self).sender_count() + 1,
            final(self).items() == old(self).items(),
            final(self).capacity() == old(self).capacity(),
            final(self).epoch() == old(self).epoch(),
            final(self).active() == old(self).active(),
            final(self).open() == old(self).open(),
    {
        self.senders = self.senders + 1;
    }

    /// Counts one sender less; tells whether it was the last one.
    pub fn drop_sender(&mut self) -> (last: bool)
        requires
            old(self).wf(),
            old(self).sender_count() > 0,
        ensures
            final(self).wf(),
            final(self).sender_count() == old(self).sender_count() - 1,
            last == (final(self).sender_count() == 0),
            final(self).items() == old(self).items(),
            final(self).capacity() == old(self).capacity(),
            final(self).epoch() == old(self).epoch(),
            final(self).active() == old(self).active(),
            final(self).open() == old(self).open(),
    {
        self.senders = self.senders - 1;
        self.senders == 0
    }

    /// The receiver goes away with everything that is queued.
    pub fn close_receiver(&mut self)
        requires
            old(self).wf(),
        ensures
            final(self).wf(),
            !final(self).open(),
            final(self).items().len() == 0,
            final(self).capacity() == old(self).capacity(),
            final(self).epoch() == old(self).epoch(),
            final(self).active() == old(self).active(),
            final(self).sender_count() == old(self).sender_count(),
    {
        self.receiver_open = false;
        self.purge();
    }
}

/// An empty queue with one sender; a capacity of zero counts as one.
pub fn packet_channel(capacity: usize, active: bool) -> (r: PacketQueue)
    requires
        capacity <= MAX_QUEUE_CAPACITY,
    ensures
        r.wf(),
        r.capacity() == (if capacity == 0 {
            1
        } else {
            capacity as nat
        }),
        r.items() == Seq::<QueuedPacket>::empty(),
        r.epoch() == 0,
        r.active() == active,
        r.sender_count() == 1,
        r.open(),
{
    let room: usize = if capacity == 0 {
        1
    } else {
        capacity
    };
    PacketQueue {
        queue: queue_new(room),
        state: if active {
            1
        } else {
            0
        },
        senders: 1,
        receiver_open: true,
    }
}

/// No packet of another epoch is ever delivered: what a receiver gets first carries
/// the current epoch, and everything dropped before it does not.
pub proof fn law_only_current_epoch_delivered(items: Seq<QueuedPacket>, epoch: nat)
    ensures
        skip_stale(items, epoch).len() > 0 ==> skip_stale(items, epoch)[0].epoch == epoch,
        skip_stale(items, epoch).len() <= items.len(),
        skip_stale(items, epoch) == items.skip(items.len() - skip_stale(items, epoch).len()),
        forall|i: int|
            0 <= i < items.len() - skip_stale(items, epoch).len() ==> (#[trigger] items[i]).epoch
                != epoch,
    decreases items.len(),
{
    if items.len() == 0 || items[0].epoch == epoch {
        assert(items.skip(0) =~= items);
    } else {
        let rest = items.skip(1);
        law_only_current_epoch_delivered(rest, epoch);
        let s = skip_stale(items, epoch);
        assert(rest.skip(rest.len() - s.len()) =~= items.skip(items.len() - s.len()));
        assert forall|i: int| 0 <= i < items.len() - s.len() implies (#[trigger] items[i]).epoch
            != epoch by {
            if i > 0 {
                assert(rest[i - 1] == items[i]);
            }
        }
    }
}

/// Packets of the current epoch are delivered in the order in which they were sent:
/// where all items carry it, none is skipped.
pub proof fn law_fifo_within_epoch(items: Seq<QueuedPacket>, epoch: nat)
    requires
        forall|i: int| 0 <= i < items.len() ==> (#[trigger] items[i]).epoch == epoch,
    ensures
        skip_stale(items, epoch) == items,
{
    if items.len() > 0 {
        assert(items[0].epoch == epoch);
    }
}

/// A forced send keeps the queue within its capacity, keeps the newest packet, and
/// gives up at most the oldest one.
pub proof fn law_forced_send_keeps_newest(
    items: Seq<QueuedPacket>,
    capacity: nat,
    item: QueuedPacket,
)
    requires
        items.len() <= capacity,
        capacity > 0,
    ensures
        force_pushed(items, capacity, item).len() <= capacity,
        force_pushed(items, capacity, item).last() == item,
        force_pushed(items, capacity, item).drop_last() == (if items.len() < capacity {
            items
        } else {
            items.skip(1)
        }),
{
    let f = force_pushed(items, capacity, item);
    assert(f.drop_last() =~= if items.len() < capacity {
        items
    } else {
        items.skip(1)
    });
}

/// Nothing crosses an interruption: while a queue is suspended it takes nothing and holds
/// nothing; once it is resumed it is empty, takes packets where its receiver is still
/// there, and a packet that was stamped before is never delivered.
pub proof fn law_nothing_crosses_an_interruption(
    before: &PacketQueue,
    between: &PacketQueue,
    after: &PacketQueue,
    late: QueuedPacket,
)
    requires
        before.wf(),
        between.suspended(before),
        after.resumed(between),
        late.epoch == before.epoch(),
    ensures
        !between.accepts(),
        between.items().len() == 0,
        between.deliverable().len() == 0,
        after.items().len() == 0,
        after.accepts() <==> before.open(),
        after.capacity() == before.capacity(),
        after.sender_count() == before.sender_count(),
        after.epoch() != before.epoch(),
        before.epoch() + 1 < EPOCHS ==> after.epoch() == before.epoch() + 1,
        skip_stale(seq![late], after.epoch()).len() == 0,
{
    assert(seq![late].skip(1).len() == 0);
    reveal_with_fuel(skip_stale, 3);
}

/// A suspended queue delivers nothing; one that is not delivers from the oldest packet of
/// its epoch on.
pub proof fn law_delivery_starts_at_the_epoch(q: &PacketQueue, k: int)
    requires
        0 <= k < q.items().len(),
        q.items()[k].epoch == q.epoch(),
        forall|j: int| 0 <= j < k ==> (#[trigger] q.items()[j]).epoch != q.epoch(),
    ensures
        !q.active() ==> q.deliverable().len() == 0,
        q.active() ==> q.deliverable() == q.items().skip(k),
{
    let items = q.items();
    law_only_current_epoch_delivered(items, q.epoch());
    let s = skip_stale(items, q.epoch());
    let n = items.len() - s.len();
    if s.len() > 0 {
        assert(s[0] == items[n as int]);
        if n < k {
            assert(items[n as int].epoch != q.epoch());
        }
        if k < n {
            assert(items[k].epoch != q.epoch());
        }
    } else {
        assert(items[k].epoch != q.epoch());
    }
}

/// A queue that is set up like another takes packets when that one does, under the same
/// epoch and up to the same number, and has the same senders.
pub proof fn law_same_queues_behave_alike(a: &PacketQueue, b: &PacketQueue)
    requires
        a.same_setup(b),
    ensures
        a.active() == b.active(),
        a.epoch() == b.epoch(),
        a.capacity() == b.capacity(),
        a.sender_count() == b.sender_count(),
        a.open() == b.open(),
        a.items() == b.items() ==> a.deliverable() == b.deliverable(),
{
}

} // verus!
